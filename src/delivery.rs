use vstd::prelude::*;

use crate::search::{first_index, lemma_first_index};

verus! {

/// What the external delivery channel reported for one send attempt.
#[derive(Clone, Copy, Debug, PartialEq, Eq, Structural)]
pub enum DeliveryOutcome {
    Delivered,
    TransientFailure,
    PermanentFailure,
}

/// How a claimed task is resolved after one attempt.
#[derive(Clone, Copy, Debug, PartialEq, Eq, Structural)]
pub enum Resolution {
    /// Terminal success: the task leaves the queue.
    Complete,
    /// Retry later: the attempt count grows and the task is delayed.
    Reschedule,
    /// Terminal give-up: the task leaves the queue.
    Drop,
}

/// Retry parameters of the worker.
#[derive(Clone, Copy, Debug, PartialEq, Eq, Structural)]
pub struct RetryPolicy {
    /// Number of attempts after which a transiently failing task is dropped.
    pub max_attempts: u32,
    /// Delay before the first retry, in seconds.
    pub base_delay: u64,
    /// Upper bound of any retry delay, in seconds.
    pub max_delay: u64,
}

pub open spec fn resolution_of(attempt_count: u32, outcome: DeliveryOutcome, policy: RetryPolicy) -> Resolution {
    match outcome {
        DeliveryOutcome::Delivered => Resolution::Complete,
        DeliveryOutcome::PermanentFailure => Resolution::Drop,
        DeliveryOutcome::TransientFailure => {
            if attempt_count + 1 >= policy.max_attempts {
                Resolution::Drop
            } else {
                Resolution::Reschedule
            }
        },
    }
}

/// Decides what happens to a task that has already been attempted
/// `attempt_count` times and whose latest attempt ended in `outcome`.
pub fn resolve(attempt_count: u32, outcome: DeliveryOutcome, policy: RetryPolicy) -> (r: Resolution)
    ensures
        r == resolution_of(attempt_count, outcome, policy),
{
    match outcome {
        DeliveryOutcome::Delivered => Resolution::Complete,
        DeliveryOutcome::PermanentFailure => Resolution::Drop,
        DeliveryOutcome::TransientFailure => {
            if attempt_count as u64 + 1 >= policy.max_attempts as u64 {
                Resolution::Drop
            } else {
                Resolution::Reschedule
            }
        },
    }
}


/// The retry delay before retry number `attempt_count + 1`: the base delay
/// doubled once per earlier attempt.
pub open spec fn doubled(base: nat, attempt_count: nat) -> nat
    decreases attempt_count,
{
    if attempt_count == 0 {
        base
    } else {
        2 * doubled(base, (attempt_count - 1) as nat)
    }
}

/// Exponential backoff with a cap.
pub open spec fn backoff_of(attempt_count: u32, policy: RetryPolicy) -> u64 {
    if doubled(policy.base_delay as nat, attempt_count as nat) >= policy.max_delay {
        policy.max_delay
    } else {
        doubled(policy.base_delay as nat, attempt_count as nat) as u64
    }
}

proof fn lemma_doubled_grows(base: nat, i: nat, n: nat)
    requires
        i <= n,
    ensures
        doubled(base, i) <= doubled(base, n),
    decreases n - i,
{
    if i < n {
        lemma_doubled_grows(base, i, (n - 1) as nat);
    }
}

/// The delay to wait before the next attempt of a task that has failed
/// `attempt_count` times.
pub fn backoff_delay(attempt_count: u32, policy: RetryPolicy) -> (r: u64)
    ensures
        r == backoff_of(attempt_count, policy),
{
    let mut delay: u64 = policy.base_delay;
    let mut i: u32 = 0;
    while i < attempt_count
        invariant
            i <= attempt_count,
            delay as nat == doubled(policy.base_delay as nat, i as nat),
        decreases attempt_count - i,
    {
        if delay >= policy.max_delay || delay > policy.max_delay - delay {
            proof {
                lemma_doubled_grows(policy.base_delay as nat, i as nat, attempt_count as nat);
                lemma_doubled_grows(policy.base_delay as nat, (i + 1) as nat, attempt_count as nat);
            }
            return policy.max_delay;
        }
        delay = delay * 2;
        i = i + 1;
    }
    if delay >= policy.max_delay {
        policy.max_delay
    } else {
        delay
    }
}

/// Maps what the channel answered to an outcome: no answer (a timeout) and
/// server errors are transient, client errors mean the recipient is
/// permanently unusable, success codes mean delivered, and anything else is
/// treated as transient.
pub open spec fn outcome_of_status(status: Option<u16>) -> DeliveryOutcome {
    match status {
        None => DeliveryOutcome::TransientFailure,
        Some(code) => if 200 <= code < 300 {
            DeliveryOutcome::Delivered
        } else if 400 <= code < 500 {
            DeliveryOutcome::PermanentFailure
        } else {
            DeliveryOutcome::TransientFailure
        },
    }
}

pub fn classify_status(status: Option<u16>) -> (r: DeliveryOutcome)
    ensures
        r == outcome_of_status(status),
{
    match status {
        None => DeliveryOutcome::TransientFailure,
        Some(code) => if 200 <= code && code < 300 {
            DeliveryOutcome::Delivered
        } else if 400 <= code && code < 500 {
            DeliveryOutcome::PermanentFailure
        } else {
            DeliveryOutcome::TransientFailure
        },
    }
}


/// One (work record, recipient) pair waiting to be delivered.
#[derive(Clone, Debug, PartialEq, Eq)]
pub struct DeliveryTask {
    pub work_record_id: u128,
    pub recipient: String,
    pub attempt_count: u32,
    /// Earliest time (in seconds) at which the task may be claimed.
    pub next_attempt_at: u64,
}

pub struct TaskView {
    pub work_record_id: u128,
    pub recipient: Seq<char>,
    pub attempt_count: u32,
    pub next_attempt_at: u64,
}

impl View for DeliveryTask {
    type V = TaskView;

    open spec fn view(&self) -> TaskView {
        TaskView {
            work_record_id: self.work_record_id,
            recipient: self.recipient@,
            attempt_count: self.attempt_count,
            next_attempt_at: self.next_attempt_at,
        }
    }
}

impl DeliveryTask {
    /// A task that has never been attempted and may be claimed from `now` on.
    pub fn new(work_record_id: u128, recipient: String, now: u64) -> (r: DeliveryTask)
        ensures
            r@ == (TaskView {
                work_record_id,
                recipient: recipient@,
                attempt_count: 0,
                next_attempt_at: now,
            }),
    {
        DeliveryTask { work_record_id, recipient, attempt_count: 0, next_attempt_at: now }
    }

    pub fn copied(&self) -> (r: DeliveryTask)
        ensures
            r@ == self@,
    {
        DeliveryTask {
            work_record_id: self.work_record_id,
            recipient: self.recipient.clone(),
            attempt_count: self.attempt_count,
            next_attempt_at: self.next_attempt_at,
        }
    }
}

/// A queue row: the task and whether a worker currently holds it.
pub struct RowView {
    pub task: TaskView,
    pub claimed: bool,
}

#[derive(Debug)]
struct Row {
    task: DeliveryTask,
    claimed: bool,
}

impl View for Row {
    type V = RowView;

    closed spec fn view(&self) -> RowView {
        RowView { task: self.task@, claimed: self.claimed }
    }
}

pub open spec fn has_key(row: RowView, work_record_id: u128, recipient: Seq<char>) -> bool {
    row.task.work_record_id == work_record_id && row.task.recipient == recipient
}

pub open spec fn is_due(row: RowView, now: u64) -> bool {
    !row.claimed && row.task.next_attempt_at <= now
}

pub open spec fn keyed(work_record_id: u128, recipient: Seq<char>) -> spec_fn(RowView) -> bool {
    |row: RowView| has_key(row, work_record_id, recipient)
}

pub open spec fn due(now: u64) -> spec_fn(RowView) -> bool {
    |row: RowView| is_due(row, now)
}

/// No two rows share a (work record, recipient) key.
pub open spec fn keys_unique(rows: Seq<RowView>) -> bool {
    forall|i: int, j: int|
        0 <= i < j < rows.len() ==> !has_key(
            #[trigger] rows[i],
            rows[j].task.work_record_id,
            #[trigger] rows[j].task.recipient,
        )
}

pub open spec fn saturating_sum(a: u64, b: u64) -> u64 {
    if a + b > u64::MAX {
        u64::MAX
    } else {
        (a + b) as u64
    }
}

pub open spec fn saturating_inc(a: u32) -> u32 {
    if a == u32::MAX {
        a
    } else {
        (a + 1) as u32
    }
}

/// The row after a failed attempt: one more attempt counted, due again
/// `delay` seconds after `now`, and released.
pub open spec fn delayed(row: RowView, delay: u64, now: u64) -> RowView {
    RowView {
        task: TaskView {
            attempt_count: saturating_inc(row.task.attempt_count),
            next_attempt_at: saturating_sum(now, delay),
            ..row.task
        },
        claimed: false,
    }
}

/// The queue after the task with the given key had an attempt ending in
/// `outcome` at time `now`; a queue without that key is left as it is.
pub open spec fn settled(
    rows: Seq<RowView>,
    work_record_id: u128,
    recipient: Seq<char>,
    outcome: DeliveryOutcome,
    policy: RetryPolicy,
    now: u64,
) -> Seq<RowView> {
    let i = first_index(rows, keyed(work_record_id, recipient));
    if i < 0 {
        rows
    } else {
        match resolution_of(rows[i].task.attempt_count, outcome, policy) {
            Resolution::Reschedule => rows.update(
                i,
                delayed(rows[i], backoff_of(rows[i].task.attempt_count, policy), now),
            ),
            _ => rows.remove(i),
        }
    }
}

/// The durable table of pending deliveries.
#[derive(Debug)]
pub struct DeliveryQueue {
    rows: Vec<Row>,
}

impl View for DeliveryQueue {
    type V = Seq<RowView>;

    closed spec fn view(&self) -> Seq<RowView> {
        self.rows@.map_values(|r: Row| r@)
    }
}

impl DeliveryQueue {
    pub open spec fn wf(&self) -> bool {
        keys_unique(self@)
    }

    pub fn new() -> (q: DeliveryQueue)
        ensures
            q@ == Seq::<RowView>::empty(),
            q.wf(),
    {
        let q = DeliveryQueue { rows: Vec::new() };
        assert(q@ =~= Seq::<RowView>::empty());
        q
    }

    pub fn len(&self) -> (n: usize)
        ensures
            n == self@.len(),
    {
        self.rows.len()
    }

    /// The tasks in queue order.
    pub fn tasks(&self) -> (r: Vec<DeliveryTask>)
        ensures
            r@.len() == self@.len(),
            forall|i: int| 0 <= i < r@.len() ==> #[trigger] r@[i]@ == self@[i].task,
    {
        let mut r: Vec<DeliveryTask> = Vec::new();
        let mut i: usize = 0;
        while i < self.rows.len()
            invariant
                i <= self.rows@.len(),
                r@.len() == i,
                forall|k: int| 0 <= k < i ==> #[trigger] r@[k]@ == self@[k].task,
            decreases self.rows@.len() - i,
        {
            r.push(self.rows[i].task.copied());
            i = i + 1;
        }
        r
    }

    /// Position of the row with the given key.
    fn position(&self, work_record_id: u128, recipient: &String) -> (r: Option<usize>)
        ensures
            match r {
                None => first_index(self@, keyed(work_record_id, recipient@)) == -1,
                Some(i) => i == first_index(self@, keyed(work_record_id, recipient@)),
            },
    {
        proof {
            lemma_first_index(self@, keyed(work_record_id, recipient@));
        }
        let mut i: usize = 0;
        while i < self.rows.len()
            invariant
                i <= self.rows@.len(),
                forall|j: int| 0 <= j < i ==> !(#[trigger] keyed(work_record_id, recipient@)(self@[j])),
            decreases self.rows@.len() - i,
        {
            let row = &self.rows[i];
            assert(self@[i as int] == row@);
            if row.task.work_record_id == work_record_id && row.task.recipient.eq(recipient) {
                proof {
                    let k = first_index(self@, keyed(work_record_id, recipient@));
                    lemma_first_index(self@, keyed(work_record_id, recipient@));
                    assert(keyed(work_record_id, recipient@)(self@[i as int]));
                    if k != -1 && k < i {
                        assert(keyed(work_record_id, recipient@)(self@[k]));
                    }
                }
                return Some(i);
            }
            assert(!keyed(work_record_id, recipient@)(self@[i as int]));
            i = i + 1;
        }
        None
    }
    /// Adds a task that no row holds yet, unclaimed.
    pub fn enqueue(&mut self, task: DeliveryTask)
        requires
            old(self).wf(),
            first_index(old(self)@, keyed(task@.work_record_id, task@.recipient)) == -1,
        ensures
            final(self).wf(),
            final(self)@ == old(self)@.push(RowView { task: task@, claimed: false }),
    {
        proof {
            lemma_first_index(self@, keyed(task@.work_record_id, task@.recipient));
        }
        let ghost before = self@;
        let row = Row { task, claimed: false };
        self.rows.push(row);
        assert(self@ =~= before.push(row@));
        assert forall|i: int, j: int| 0 <= i < j < self@.len() implies !has_key(
            #[trigger] self@[i],
            self@[j].task.work_record_id,
            #[trigger] self@[j].task.recipient,
        ) by {
            if j == before.len() {
                assert(!keyed(task@.work_record_id, task@.recipient)(before[i]));
            }
        }
    }

    /// Claims the first unclaimed task that is due at `now`: it becomes
    /// invisible to further claims until it is settled.
    pub fn claim_one(&mut self, now: u64) -> (r: Option<DeliveryTask>)
        requires
            old(self).wf(),
        ensures
            final(self).wf(),
            match r {
                None => first_index(old(self)@, due(now)) == -1 && final(self)@ == old(self)@,
                Some(t) => {
                    let i = first_index(old(self)@, due(now));
                    &&& 0 <= i
                    &&& t@ == old(self)@[i].task
                    &&& final(self)@ == old(self)@.update(i, RowView { task: t@, claimed: true })
                },
            },
    {
        proof {
            lemma_first_index(self@, due(now));
        }
        let mut i: usize = 0;
        while i < self.rows.len()
            invariant
                i <= self.rows@.len(),
                forall|j: int| 0 <= j < i ==> !(#[trigger] due(now)(self@[j])),
                self@ == old(self)@,
                self.wf(),
            decreases self.rows@.len() - i,
        {
            let row = &self.rows[i];
            assert(self@[i as int] == row@);
            if !row.claimed && row.task.next_attempt_at <= now {
                let ghost before = self@;
                proof {
                    let k = first_index(self@, due(now));
                    lemma_first_index(self@, due(now));
                    assert(due(now)(self@[i as int]));
                    if k != -1 && k < i {
                        assert(due(now)(self@[k]));
                    }
                }
                let task = row.task.copied();
                let claimed = Row { task: row.task.copied(), claimed: true };
                self.rows.set(i, claimed);
                assert(self@ =~= before.update(i as int, RowView { task: task@, claimed: true }));
                assert forall|a: int, b: int| 0 <= a < b < self@.len() implies !has_key(
                    #[trigger] self@[a],
                    self@[b].task.work_record_id,
                    #[trigger] self@[b].task.recipient,
                ) by {
                    assert(!has_key(before[a], before[b].task.work_record_id, before[b].task.recipient));
                }
                return Some(task);
            }
            assert(!due(now)(self@[i as int]));
            i = i + 1;
        }
        None
    }

    /// Releases every claim, as happens when the worker holding them goes
    /// away: the tasks become claimable again, unchanged otherwise.
    pub fn release_claims(&mut self)
        requires
            old(self).wf(),
        ensures
            final(self).wf(),
            final(self)@.len() == old(self)@.len(),
            forall|i: int| 0 <= i < old(self)@.len() ==> #[trigger] final(self)@[i] == (RowView { claimed: false, ..old(self)@[i] }),
    {
        let ghost before = self@;
        let mut i: usize = 0;
        while i < self.rows.len()
            invariant
                i <= self.rows@.len(),
                self@.len() == before.len(),
                forall|k: int| 0 <= k < i ==> #[trigger] self@[k] == (RowView { claimed: false, ..before[k] }),
                forall|k: int| i <= k < before.len() ==> #[trigger] self@[k] == before[k],
            decreases self.rows@.len() - i,
        {
            assert(self@[i as int] == self.rows@[i as int]@);
            let task = self.rows[i].task.copied();
            let ghost prev = self@;
            self.rows.set(i, Row { task, claimed: false });
            assert(self@ =~= prev.update(i as int, RowView { claimed: false, ..before[i as int] }));
            i = i + 1;
        }
        assert forall|a: int, b: int| 0 <= a < b < self@.len() implies !has_key(
            #[trigger] self@[a],
            self@[b].task.work_record_id,
            #[trigger] self@[b].task.recipient,
        ) by {
            assert(!has_key(before[a], before[b].task.work_record_id, before[b].task.recipient));
        }
    }

    /// Removes the task with the given key: it was delivered, or it is given
    /// up for good. Returns whether such a task was queued.
    fn remove_key(&mut self, work_record_id: u128, recipient: &String) -> (found: bool)
        requires
            old(self).wf(),
        ensures
            final(self).wf(),
            found == (first_index(old(self)@, keyed(work_record_id, recipient@)) != -1),
            found ==> final(self)@ == old(self)@.remove(first_index(old(self)@, keyed(work_record_id, recipient@))),
            !found ==> final(self)@ == old(self)@,
    {
        match self.position(work_record_id, recipient) {
            None => false,
            Some(i) => {
                let ghost before = self@;
                proof {
                    lemma_first_index(self@, keyed(work_record_id, recipient@));
                }
                self.rows.remove(i);
                assert(self@ =~= before.remove(i as int));
                assert forall|a: int, b: int| 0 <= a < b < self@.len() implies !has_key(
                    #[trigger] self@[a],
                    self@[b].task.work_record_id,
                    #[trigger] self@[b].task.recipient,
                ) by {
                    let a0 = if a < i { a } else { a + 1 };
                    let b0 = if b < i { b } else { b + 1 };
                    assert(self@[a] == before[a0]);
                    assert(self@[b] == before[b0]);
                    assert(!has_key(before[a0], before[b0].task.work_record_id, before[b0].task.recipient));
                }
                true
            },
        }
    }

    /// Terminal success: the task leaves the queue.
    pub fn complete(&mut self, work_record_id: u128, recipient: &String) -> (found: bool)
        requires
            old(self).wf(),
        ensures
            final(self).wf(),
            found == (first_index(old(self)@, keyed(work_record_id, recipient@)) != -1),
            found ==> final(self)@ == old(self)@.remove(first_index(old(self)@, keyed(work_record_id, recipient@))),
            !found ==> final(self)@ == old(self)@,
    {
        self.remove_key(work_record_id, recipient)
    }

    /// Terminal failure: the task leaves the queue and is not retried.
    pub fn drop_permanently(&mut self, work_record_id: u128, recipient: &String) -> (found: bool)
        requires
            old(self).wf(),
        ensures
            final(self).wf(),
            found == (first_index(old(self)@, keyed(work_record_id, recipient@)) != -1),
            found ==> final(self)@ == old(self)@.remove(first_index(old(self)@, keyed(work_record_id, recipient@))),
            !found ==> final(self)@ == old(self)@,
    {
        self.remove_key(work_record_id, recipient)
    }

    /// Counts one more attempt of the task, makes it due `delay` seconds
    /// after `now` and releases its claim.
    pub fn reschedule(&mut self, work_record_id: u128, recipient: &String, delay: u64, now: u64) -> (found: bool)
        requires
            old(self).wf(),
        ensures
            final(self).wf(),
            found == (first_index(old(self)@, keyed(work_record_id, recipient@)) != -1),
            found ==> {
                let i = first_index(old(self)@, keyed(work_record_id, recipient@));
                final(self)@ == old(self)@.update(i, delayed(old(self)@[i], delay, now))
            },
            !found ==> final(self)@ == old(self)@,
    {
        match self.position(work_record_id, recipient) {
            None => false,
            Some(i) => {
                let ghost before = self@;
                proof {
                    lemma_first_index(self@, keyed(work_record_id, recipient@));
                }
                let old_task = &self.rows[i].task;
                assert(before[i as int] == self.rows@[i as int]@);
                let attempt_count = if old_task.attempt_count == u32::MAX {
                    old_task.attempt_count
                } else {
                    old_task.attempt_count + 1
                };
                let task = DeliveryTask {
                    work_record_id: old_task.work_record_id,
                    recipient: old_task.recipient.clone(),
                    attempt_count,
                    next_attempt_at: now.saturating_add(delay),
                };
                let row = Row { task, claimed: false };
                self.rows.set(i, row);
                assert(self@ =~= before.update(i as int, delayed(before[i as int], delay, now)));
                assert forall|a: int, b: int| 0 <= a < b < self@.len() implies !has_key(
                    #[trigger] self@[a],
                    self@[b].task.work_record_id,
                    #[trigger] self@[b].task.recipient,
                ) by {
                    assert(!has_key(before[a], before[b].task.work_record_id, before[b].task.recipient));
                }
                true
            },
        }
    }

    /// Resolves the claimed task with the given key after one attempt that
    /// ended in `outcome`: it is completed, rescheduled with backoff, or
    /// dropped. Returns `None`, leaving the queue as it is, when no task has
    /// that key.
    pub fn settle(
        &mut self,
        work_record_id: u128,
        recipient: &String,
        outcome: DeliveryOutcome,
        policy: RetryPolicy,
        now: u64,
    ) -> (r: Option<Resolution>)
        requires
            old(self).wf(),
        ensures
            final(self).wf(),
            final(self)@ == settled(old(self)@, work_record_id, recipient@, outcome, policy, now),
            match r {
                None => first_index(old(self)@, keyed(work_record_id, recipient@)) == -1,
                Some(res) => {
                    let i = first_index(old(self)@, keyed(work_record_id, recipient@));
                    &&& i >= 0
                    &&& res == resolution_of(old(self)@[i].task.attempt_count, outcome, policy)
                },
            },
    {
        match self.position(work_record_id, recipient) {
            None => None,
            Some(i) => {
                proof {
                    lemma_first_index(self@, keyed(work_record_id, recipient@));
                }
                let attempt_count = self.rows[i].task.attempt_count;
                assert(self@[i as int] == self.rows@[i as int]@);
                let res = resolve(attempt_count, outcome, policy);
                match res {
                    Resolution::Complete => {
                        self.complete(work_record_id, recipient);
                    },
                    Resolution::Drop => {
                        self.drop_permanently(work_record_id, recipient);
                    },
                    Resolution::Reschedule => {
                        let delay = backoff_delay(attempt_count, policy);
                        self.reschedule(work_record_id, recipient, delay, now);
                    },
                }
                Some(res)
            },
        }
    }
}

/// One attempt as the worker sees it: which task was tried and how it ended.
pub struct Attempt {
    pub work_record_id: u128,
    pub recipient: Seq<char>,
    pub outcome: DeliveryOutcome,
}

/// The queue after the worker settles each attempt of `script` in turn.
pub open spec fn run_attempts(
    rows: Seq<RowView>,
    script: Seq<Attempt>,
    policy: RetryPolicy,
    now: u64,
) -> Seq<RowView>
    decreases script.len(),
{
    if script.len() == 0 {
        rows
    } else {
        run_attempts(
            settled(rows, script[0].work_record_id, script[0].recipient, script[0].outcome, policy, now),
            script.skip(1),
            policy,
            now,
        )
    }
}

pub open spec fn attempt_on(row: RowView, outcome: DeliveryOutcome) -> Attempt {
    Attempt { work_record_id: row.task.work_record_id, recipient: row.task.recipient, outcome }
}

/// Every queued task, in queue order, fails transiently once and then
/// succeeds.
pub open spec fn fail_once_then_deliver(rows: Seq<RowView>) -> Seq<Attempt>
    decreases rows.len(),
{
    if rows.len() == 0 {
        Seq::empty()
    } else {
        seq![
            attempt_on(rows[0], DeliveryOutcome::TransientFailure),
            attempt_on(rows[0], DeliveryOutcome::Delivered),
        ] + fail_once_then_deliver(rows.skip(1))
    }
}

/// Every queued task, in queue order, fails transiently until its attempts
/// reach the policy's maximum.
pub open spec fn always_failing(rows: Seq<RowView>, policy: RetryPolicy) -> Seq<Attempt>
    decreases rows.len(),
{
    if rows.len() == 0 {
        Seq::empty()
    } else {
        Seq::new(
            (policy.max_attempts - rows[0].task.attempt_count) as nat,
            |_k: int| attempt_on(rows[0], DeliveryOutcome::TransientFailure),
        ) + always_failing(rows.skip(1), policy)
    }
}

proof fn lemma_run_concat(rows: Seq<RowView>, s1: Seq<Attempt>, s2: Seq<Attempt>, policy: RetryPolicy, now: u64)
    ensures
        run_attempts(rows, s1 + s2, policy, now) == run_attempts(run_attempts(rows, s1, policy, now), s2, policy, now),
    decreases s1.len(),
{
    if s1.len() > 0 {
        let head = s1[0];
        let next = settled(rows, head.work_record_id, head.recipient, head.outcome, policy, now);
        assert((s1 + s2).skip(1) =~= s1.skip(1) + s2);
        assert((s1 + s2)[0] == head);
        lemma_run_concat(next, s1.skip(1), s2, policy, now);
    } else {
        assert(s1 + s2 =~= s2);
    }
}

proof fn lemma_keys_unique_tail(rows: Seq<RowView>)
    requires
        keys_unique(rows),
        rows.len() > 0,
    ensures
        keys_unique(rows.skip(1)),
{
    let t = rows.skip(1);
    assert forall|i: int, j: int| 0 <= i < j < t.len() implies !has_key(
        #[trigger] t[i],
        t[j].task.work_record_id,
        #[trigger] t[j].task.recipient,
    ) by {
        assert(t[i] == rows[i + 1] && t[j] == rows[j + 1]);
    }
}

/// A task whose delivery succeeded is no longer queued, so it is never
/// delivered a second time.
pub proof fn lemma_delivered_leaves_queue(
    rows: Seq<RowView>,
    work_record_id: u128,
    recipient: Seq<char>,
    policy: RetryPolicy,
    now: u64,
)
    requires
        keys_unique(rows),
    ensures
        first_index(
            settled(rows, work_record_id, recipient, DeliveryOutcome::Delivered, policy, now),
            keyed(work_record_id, recipient),
        ) == -1,
{
    let p = keyed(work_record_id, recipient);
    let after = settled(rows, work_record_id, recipient, DeliveryOutcome::Delivered, policy, now);
    lemma_first_index(rows, p);
    lemma_first_index(after, p);
    let i = first_index(rows, p);
    if i >= 0 {
        assert forall|j: int| 0 <= j < after.len() implies !p(#[trigger] after[j]) by {
            if j < i {
                assert(after[j] == rows[j]);
            } else {
                assert(after[j] == rows[j + 1]);
                assert(!has_key(rows[i], rows[j + 1].task.work_record_id, rows[j + 1].task.recipient));
            }
        }
    }
}

/// At-least-once delivery: when the channel fails transiently once for every
/// task and then succeeds, and the policy leaves room for one retry, the
/// queue drains to empty, and a later claim finds nothing.
pub proof fn lemma_fail_once_then_deliver_drains(rows: Seq<RowView>, policy: RetryPolicy, now: u64)
    requires
        keys_unique(rows),
        forall|i: int| 0 <= i < rows.len() ==> #[trigger] rows[i].task.attempt_count + 2 <= policy.max_attempts,
    ensures
        run_attempts(rows, fail_once_then_deliver(rows), policy, now) == Seq::<RowView>::empty(),
        forall|later: u64| first_index(run_attempts(rows, fail_once_then_deliver(rows), policy, now), #[trigger] due(later)) == -1,
    decreases rows.len(),
{
    if rows.len() == 0 {
        return;
    }
    let r0 = rows[0];
    let k = keyed(r0.task.work_record_id, r0.task.recipient);
    let first = seq![
        attempt_on(r0, DeliveryOutcome::TransientFailure),
        attempt_on(r0, DeliveryOutcome::Delivered),
    ];
    let rest = rows.skip(1);
    assert(fail_once_then_deliver(rows) == first + fail_once_then_deliver(rest));
    lemma_run_concat(rows, first, fail_once_then_deliver(rest), policy, now);
    // first attempt: rescheduled in place
    assert(k(rows[0]));
    assert(first_index(rows, k) == 0);
    let retried = rows.update(0, delayed(r0, backoff_of(r0.task.attempt_count, policy), now));
    assert(settled(rows, r0.task.work_record_id, r0.task.recipient, DeliveryOutcome::TransientFailure, policy, now) == retried);
    // second attempt: completed
    assert(k(retried[0]));
    assert(first_index(retried, k) == 0);
    assert(retried.remove(0) =~= rest);
    assert(settled(retried, r0.task.work_record_id, r0.task.recipient, DeliveryOutcome::Delivered, policy, now) == rest);
    assert(first.skip(1).skip(1) =~= Seq::<Attempt>::empty());
    assert(run_attempts(rows, first, policy, now) == run_attempts(retried, first.skip(1), policy, now));
    assert(run_attempts(retried, first.skip(1), policy, now) == run_attempts(rest, first.skip(1).skip(1), policy, now));
    assert(run_attempts(rows, first, policy, now) == rest);
    lemma_keys_unique_tail(rows);
    assert forall|i: int| 0 <= i < rest.len() implies #[trigger] rest[i].task.attempt_count + 2 <= policy.max_attempts by {
        assert(rest[i] == rows[i + 1]);
    }
    lemma_fail_once_then_deliver_drains(rest, policy, now);
}

/// Bounded retry, per task: under transient failures the task at the head
/// of the queue stays queued, one attempt further each time, until its
/// attempts reach the policy's maximum, and the failure that reaches it
/// removes the task. So it is sent exactly `max_attempts - attempt_count`
/// times, never more than `max_attempts`.
pub proof fn lemma_transient_failures_until_dropped(rows: Seq<RowView>, policy: RetryPolicy, now: u64, n: nat)
    requires
        rows.len() > 0,
        rows[0].task.attempt_count < policy.max_attempts,
        n <= policy.max_attempts - rows[0].task.attempt_count,
    ensures
        ({
            let r0 = rows[0];
            let after = run_attempts(
                rows,
                Seq::new(n, |_k: int| attempt_on(r0, DeliveryOutcome::TransientFailure)),
                policy,
                now,
            );
            if n < policy.max_attempts - r0.task.attempt_count {
                &&& after.len() == rows.len()
                &&& has_key(after[0], r0.task.work_record_id, r0.task.recipient)
                &&& after[0].task.attempt_count == r0.task.attempt_count + n
                &&& after.skip(1) == rows.skip(1)
            } else {
                after == rows.skip(1)
            }
        }),
    decreases n,
{
    let r0 = rows[0];
    let k = keyed(r0.task.work_record_id, r0.task.recipient);
    let script = Seq::new(n, |_k: int| attempt_on(r0, DeliveryOutcome::TransientFailure));
    if n == 0 {
        return;
    }
    assert(k(rows[0]));
    assert(first_index(rows, k) == 0);
    assert(script[0] == attempt_on(r0, DeliveryOutcome::TransientFailure));
    if r0.task.attempt_count + 1 >= policy.max_attempts {
        assert(settled(rows, r0.task.work_record_id, r0.task.recipient, DeliveryOutcome::TransientFailure, policy, now) == rows.remove(0));
        assert(rows.remove(0) =~= rows.skip(1));
        assert(script.skip(1) =~= Seq::<Attempt>::empty());
        assert(run_attempts(rows, script, policy, now) == run_attempts(rows.skip(1), script.skip(1), policy, now));
    } else {
        let retried = rows.update(0, delayed(r0, backoff_of(r0.task.attempt_count, policy), now));
        assert(settled(rows, r0.task.work_record_id, r0.task.recipient, DeliveryOutcome::TransientFailure, policy, now) == retried);
        assert(retried[0].task.attempt_count == r0.task.attempt_count + 1);
        let shorter = Seq::new(
            (n - 1) as nat,
            |_k: int| attempt_on(retried[0], DeliveryOutcome::TransientFailure),
        );
        assert(attempt_on(retried[0], DeliveryOutcome::TransientFailure) == attempt_on(r0, DeliveryOutcome::TransientFailure));
        assert(script.skip(1) =~= shorter);
        lemma_transient_failures_until_dropped(retried, policy, now, (n - 1) as nat);
        assert(retried.skip(1) =~= rows.skip(1));
        assert(run_attempts(rows, script, policy, now) == run_attempts(retried, script.skip(1), policy, now));
    }
}

/// At-least-once delivery, per task: a task at the head of the queue with
/// room for a retry stays queued after one transient failure, and the
/// success that follows removes it: two sends, one of them successful.
pub proof fn lemma_one_failure_then_success(rows: Seq<RowView>, policy: RetryPolicy, now: u64)
    requires
        rows.len() > 0,
        rows[0].task.attempt_count + 2 <= policy.max_attempts,
    ensures
        ({
            let r0 = rows[0];
            let once = settled(rows, r0.task.work_record_id, r0.task.recipient, DeliveryOutcome::TransientFailure, policy, now);
            &&& once.len() == rows.len()
            &&& has_key(once[0], r0.task.work_record_id, r0.task.recipient)
            &&& settled(once, r0.task.work_record_id, r0.task.recipient, DeliveryOutcome::Delivered, policy, now)
                == rows.skip(1)
        }),
{
    let r0 = rows[0];
    let k = keyed(r0.task.work_record_id, r0.task.recipient);
    assert(k(rows[0]));
    assert(first_index(rows, k) == 0);
    let once = rows.update(0, delayed(r0, backoff_of(r0.task.attempt_count, policy), now));
    assert(k(once[0]));
    assert(first_index(once, k) == 0);
    assert(once.remove(0) =~= rows.skip(1));
}

/// Bounded retry: when the channel always fails transiently, every task is
/// dropped once its attempts reach the policy's maximum, and the queue
/// drains to empty instead of retrying forever.
pub proof fn lemma_always_failing_drains(rows: Seq<RowView>, policy: RetryPolicy, now: u64)
    requires
        keys_unique(rows),
        forall|i: int| 0 <= i < rows.len() ==> #[trigger] rows[i].task.attempt_count < policy.max_attempts,
    ensures
        run_attempts(rows, always_failing(rows, policy), policy, now) == Seq::<RowView>::empty(),
    decreases rows.len(),
{
    if rows.len() == 0 {
        return;
    }
    let r0 = rows[0];
    let first = Seq::new(
        (policy.max_attempts - r0.task.attempt_count) as nat,
        |_k: int| attempt_on(r0, DeliveryOutcome::TransientFailure),
    );
    let rest = rows.skip(1);
    assert(always_failing(rows, policy) == first + always_failing(rest, policy));
    lemma_run_concat(rows, first, always_failing(rest, policy), policy, now);
    lemma_transient_failures_until_dropped(rows, policy, now, (policy.max_attempts - r0.task.attempt_count) as nat);
    lemma_keys_unique_tail(rows);
    assert forall|i: int| 0 <= i < rest.len() implies #[trigger] rest[i].task.attempt_count < policy.max_attempts by {
        assert(rest[i] == rows[i + 1]);
    }
    lemma_always_failing_drains(rest, policy, now);
}

/// Claim discipline: a task that a poll claimed is not handed out by any
/// later poll, whatever its time, until it is settled or released.
pub proof fn lemma_claimed_task_is_hidden(rows: Seq<RowView>, now: u64, later: u64)
    requires
        first_index(rows, due(now)) != -1,
    ensures
        ({
            let i = first_index(rows, due(now));
            let after = rows.update(i, RowView { task: rows[i].task, claimed: true });
            first_index(after, due(later)) != i
        }),
{
    let i = first_index(rows, due(now));
    lemma_first_index(rows, due(now));
    let after = rows.update(i, RowView { task: rows[i].task, claimed: true });
    lemma_first_index(after, due(later));
    assert(!due(later)(after[i]));
}

/// What the worker does next.
#[derive(Debug)]
pub enum WorkerStep {
    /// Nothing is due: wait this many seconds before polling again.
    Sleep(u64),
    /// Send this claimed task through the delivery channel.
    Deliver(DeliveryTask),
}

/// What a poll that returned `r` did to the queue `before`, leaving `after`.
pub open spec fn first_step_view(before: Seq<RowView>, after: Seq<RowView>, now: u64, idle_interval: u64, r: WorkerStep) -> bool {
    match r {
        WorkerStep::Sleep(d) => {
            &&& d == idle_interval
            &&& first_index(before, due(now)) == -1
            &&& after == before
        },
        WorkerStep::Deliver(t) => {
            let i = first_index(before, due(now));
            &&& 0 <= i
            &&& t@ == before[i].task
            &&& after == before.update(i, RowView { task: t@, claimed: true })
        },
    }
}

/// One poll of the worker: claim the first due task, or sleep for
/// `idle_interval` seconds when none is due.
pub fn next_step(queue: &mut DeliveryQueue, now: u64, idle_interval: u64) -> (r: WorkerStep)
    requires
        old(queue).wf(),
    ensures
        final(queue).wf(),
        first_step_view(old(queue)@, final(queue)@, now, idle_interval, r),
{
    match queue.claim_one(now) {
        None => WorkerStep::Sleep(idle_interval),
        Some(t) => WorkerStep::Deliver(t),
    }
}

/// Records the channel's answer for a claimed task (`None` when the attempt
/// timed out) and resolves the task accordingly.
pub fn finish_attempt(
    queue: &mut DeliveryQueue,
    task: &DeliveryTask,
    status: Option<u16>,
    policy: RetryPolicy,
    now: u64,
) -> (r: Option<Resolution>)
    requires
        old(queue).wf(),
    ensures
        final(queue).wf(),
        final(queue)@ == settled(old(queue)@, task@.work_record_id, task@.recipient, outcome_of_status(status), policy, now),
        match r {
            None => first_index(old(queue)@, keyed(task@.work_record_id, task@.recipient)) == -1,
            Some(res) => {
                let i = first_index(old(queue)@, keyed(task@.work_record_id, task@.recipient));
                &&& i >= 0
                &&& res == resolution_of(old(queue)@[i].task.attempt_count, outcome_of_status(status), policy)
            },
        },
{
    let outcome = classify_status(status);
    queue.settle(task.work_record_id, &task.recipient, outcome, policy, now)
}

} // verus!
