use vstd::prelude::*;

use crate::delivery::{
    due, first_step_view, keyed, keys_unique, outcome_of_status, resolution_of, settled, DeliveryQueue, DeliveryTask, Resolution,
    RetryPolicy, RowView, TaskView, WorkerStep,
};
use crate::domain::{is_valid_email, valid_email};
use crate::idempotency::{key_error, see_other, see_other_view, IdempotencyKey, KeyError, ResponseView, SavedResponse};
use crate::search::{
    str_eq,
    first_index, lemma_first_index, lemma_first_index_push, lemma_first_index_push_found,
    lemma_first_index_push_other,
};

verus! {

/// The content of one newsletter issue.
#[derive(Clone, Debug)]
pub struct Newsletter {
    pub title: String,
    pub text_content: String,
    pub html_content: String,
}

pub struct NewsletterView {
    pub title: Seq<char>,
    pub text_content: Seq<char>,
    pub html_content: Seq<char>,
}

impl View for Newsletter {
    type V = NewsletterView;

    open spec fn view(&self) -> NewsletterView {
        NewsletterView {
            title: self.title@,
            text_content: self.text_content@,
            html_content: self.html_content@,
        }
    }
}

impl Newsletter {
    pub fn copied(&self) -> (r: Newsletter)
        ensures
            r@ == self@,
    {
        Newsletter {
            title: self.title.clone(),
            text_content: self.text_content.clone(),
            html_content: self.html_content.clone(),
        }
    }
}

/// The durable record of one accepted publish request.
#[derive(Clone, Debug)]
pub struct WorkRecord {
    pub id: u128,
    pub content: Newsletter,
    pub created_at: u64,
}

pub struct WorkRecordView {
    pub id: u128,
    pub content: NewsletterView,
    pub created_at: u64,
}

impl View for WorkRecord {
    type V = WorkRecordView;

    open spec fn view(&self) -> WorkRecordView {
        WorkRecordView { id: self.id, content: self.content@, created_at: self.created_at }
    }
}

/// An idempotency record: the response saved for (owner, key), or `None`
/// while the first request with that key has not committed.
pub struct RecordView {
    pub owner: u128,
    pub key: Seq<char>,
    pub response: Option<ResponseView>,
}

#[derive(Debug)]
struct IdempotencyRecord {
    owner: u128,
    key: String,
    response: Option<SavedResponse>,
}

impl View for IdempotencyRecord {
    type V = RecordView;

    closed spec fn view(&self) -> RecordView {
        RecordView {
            owner: self.owner,
            key: self.key@,
            response: match self.response {
                Some(r) => Some(r@),
                None => None,
            },
        }
    }
}

pub struct StoreView {
    pub records: Seq<RecordView>,
    pub issues: Seq<WorkRecordView>,
    pub queue: Seq<RowView>,
}

pub open spec fn scoped(owner: u128, key: Seq<char>) -> spec_fn(RecordView) -> bool {
    |r: RecordView| r.owner == owner && r.key == key
}

pub open spec fn same_scope(a: RecordView, b: RecordView) -> bool {
    a.owner == b.owner && a.key == b.key
}

pub open spec fn with_id(id: u128) -> spec_fn(WorkRecordView) -> bool {
    |w: WorkRecordView| w.id == id
}

/// Index of the idempotency record of (owner, key), or -1.
pub open spec fn lookup(s: StoreView, owner: u128, key: Seq<char>) -> int {
    first_index(s.records, scoped(owner, key))
}

pub open spec fn has_issue(s: StoreView, id: u128) -> bool {
    first_index(s.issues, with_id(id)) != -1
}

impl StoreView {
    pub open spec fn wf(self) -> bool {
        &&& forall|i: int, j: int|
            0 <= i < j < self.records.len() ==> !same_scope(#[trigger] self.records[i], #[trigger] self.records[j])
        &&& forall|i: int, j: int|
            0 <= i < j < self.issues.len() ==> #[trigger] self.issues[i].id != #[trigger] self.issues[j].id
        &&& keys_unique(self.queue)
        &&& forall|i: int| 0 <= i < self.queue.len() ==> has_issue(self, #[trigger] self.queue[i].task.work_record_id)
    }
}

/// A task row for each recipient, never attempted, due at `now`.
pub open spec fn new_rows(id: u128, recipients: Seq<Seq<char>>, now: u64) -> Seq<RowView> {
    recipients.map_values(
        |r: Seq<char>|
            RowView {
                task: TaskView { work_record_id: id, recipient: r, attempt_count: 0, next_attempt_at: now },
                claimed: false,
            },
    )
}

/// The state of an uncommitted publish transaction.
pub struct TxnView {
    pub owner: u128,
    pub key: Seq<char>,
    pub issue: Option<WorkRecordView>,
    pub recipients: Seq<Seq<char>>,
}

/// Writes staged under an idempotency record that `Store::begin` created:
/// invisible to everyone until `Store::commit`, gone on `Store::rollback`.
#[derive(Debug)]
pub struct Transaction {
    owner: u128,
    key: IdempotencyKey,
    issue: Option<WorkRecord>,
    recipients: Vec<String>,
}

impl View for Transaction {
    type V = TxnView;

    closed spec fn view(&self) -> TxnView {
        TxnView {
            owner: self.owner,
            key: self.key@,
            issue: match self.issue {
                Some(w) => Some(w@),
                None => None,
            },
            recipients: self.recipients@.map_values(|r: String| r@),
        }
    }
}

impl TxnView {
    pub open spec fn wf(self) -> bool {
        forall|i: int, j: int|
            0 <= i < j < self.recipients.len() ==> #[trigger] self.recipients[i] != #[trigger] self.recipients[j]
    }
}

impl Transaction {
    /// Stages the work record.
    pub fn insert_work_record(&mut self, id: u128, content: &Newsletter, now: u64)
        ensures
            final(self)@ == (TxnView {
                issue: Some(WorkRecordView { id, content: content@, created_at: now }),
                ..old(self)@
            }),
    {
        self.issue = Some(WorkRecord { id, content: content.copied(), created_at: now });
    }

    /// Stages a delivery to `recipient`; a recipient that is already staged
    /// is not staged twice. Returns whether it was added.
    pub fn enqueue(&mut self, recipient: String) -> (added: bool)
        requires
            old(self)@.wf(),
        ensures
            final(self)@.wf(),
            added == !old(self)@.recipients.contains(recipient@),
            final(self)@ == (TxnView {
                recipients: if added {
                    old(self)@.recipients.push(recipient@)
                } else {
                    old(self)@.recipients
                },
                ..old(self)@
            }),
    {
        let ghost before = self@;
        let mut i: usize = 0;
        while i < self.recipients.len()
            invariant
                self@ == before,
                before.wf(),
                i <= self.recipients@.len(),
                forall|j: int| 0 <= j < i ==> #[trigger] before.recipients[j] != recipient@,
            decreases self.recipients@.len() - i,
        {
            assert(before.recipients[i as int] == self.recipients@[i as int]@);
            if self.recipients[i].eq(&recipient) {
                assert(before.recipients[i as int] == recipient@);
                assert(before.recipients.contains(recipient@));
                return false;
            }
            i = i + 1;
        }
        self.recipients.push(recipient);
        assert(self@.recipients =~= before.recipients.push(recipient@));
        true
    }
}

/// How `Store::begin` found the key.
#[derive(Debug)]
pub enum Begin {
    /// First use of the key: the caller proceeds within this transaction.
    Fresh(Transaction),
    /// The key's first request committed: its response, to replay as is.
    Cached(SavedResponse),
    /// The key's first request has not committed yet.
    InProgress,
}

/// Why a commit was refused; the transaction was rolled back.
#[derive(Clone, Copy, Debug, PartialEq, Eq, Structural)]
pub enum CommitError {
    /// No in-progress idempotency record holds the transaction's key.
    NotInProgress,
    /// No work record was staged.
    NothingStaged,
    /// A work record with the staged id already exists.
    DuplicateWorkRecord,
}

pub open spec fn begun(s: StoreView, owner: u128, key: Seq<char>) -> StoreView {
    if lookup(s, owner, key) == -1 {
        StoreView { records: s.records.push(RecordView { owner, key, response: None }), ..s }
    } else {
        s
    }
}

/// The store after the transaction of (owner, key) is abandoned: its
/// in-progress record disappears, and nothing it staged was ever visible.
pub open spec fn rolled_back(s: StoreView, owner: u128, key: Seq<char>) -> StoreView {
    let i = lookup(s, owner, key);
    if i >= 0 && s.records[i].response is None {
        StoreView { records: s.records.remove(i), ..s }
    } else {
        s
    }
}

pub open spec fn commit_error(s: StoreView, t: TxnView) -> Option<CommitError> {
    let i = lookup(s, t.owner, t.key);
    if i < 0 || s.records[i].response is Some {
        Some(CommitError::NotInProgress)
    } else if t.issue is None {
        Some(CommitError::NothingStaged)
    } else if has_issue(s, t.issue->0.id) {
        Some(CommitError::DuplicateWorkRecord)
    } else {
        None
    }
}

/// The store after the transaction commits with `response`: the work
/// record, its tasks and the saved response become visible together.
pub open spec fn committed(s: StoreView, t: TxnView, response: ResponseView) -> StoreView {
    let i = lookup(s, t.owner, t.key);
    let w = t.issue->0;
    StoreView {
        records: s.records.update(i, RecordView { owner: t.owner, key: t.key, response: Some(response) }),
        issues: s.issues.push(w),
        queue: s.queue + new_rows(w.id, t.recipients, w.created_at),
    }
}

/// Every queue row of `after` names a stored work record when `before` is
/// well formed, the work records are unchanged, and each row of `after`
/// carries the work record id of row `from(k)` of `before`.
proof fn lemma_rows_keep_work_records(before: StoreView, after: StoreView, from: spec_fn(int) -> int)
    requires
        before.wf(),
        after.issues == before.issues,
        forall|k: int|
            0 <= k < after.queue.len() ==> 0 <= from(k) < before.queue.len() && #[trigger] after.queue[k].task.work_record_id
                == before.queue[from(k)].task.work_record_id,
    ensures
        forall|k: int| 0 <= k < after.queue.len() ==> has_issue(after, #[trigger] after.queue[k].task.work_record_id),
{
    assert forall|k: int| 0 <= k < after.queue.len() implies has_issue(
        after,
        #[trigger] after.queue[k].task.work_record_id,
    ) by {
        let id = after.queue[k].task.work_record_id;
        let j = from(k);
        assert(0 <= j < before.queue.len() && id == before.queue[j].task.work_record_id);
        assert(has_issue(before, before.queue[j].task.work_record_id));
    }
}

/// The shared durable store: idempotency records, work records and the
/// delivery queue.
#[derive(Debug)]
pub struct Store {
    records: Vec<IdempotencyRecord>,
    issues: Vec<WorkRecord>,
    queue: DeliveryQueue,
}

impl View for Store {
    type V = StoreView;

    closed spec fn view(&self) -> StoreView {
        StoreView {
            records: self.records@.map_values(|r: IdempotencyRecord| r@),
            issues: self.issues@.map_values(|w: WorkRecord| w@),
            queue: self.queue@,
        }
    }
}

impl Store {
    pub open spec fn wf(&self) -> bool {
        self@.wf()
    }

    pub fn new() -> (s: Store)
        ensures
            s.wf(),
            s@.records.len() == 0,
            s@.issues.len() == 0,
            s@.queue.len() == 0,
    {
        Store { records: Vec::new(), issues: Vec::new(), queue: DeliveryQueue::new() }
    }

    /// The delivery queue, for the worker.
    pub fn queue(&self) -> (q: &DeliveryQueue)
        ensures
            q@ == self@.queue,
    {
        &self.queue
    }

    /// Number of work records.
    pub fn work_record_count(&self) -> (n: usize)
        ensures
            n == self@.issues.len(),
    {
        self.issues.len()
    }

    /// The work records, oldest first.
    pub fn work_records(&self) -> (r: Vec<WorkRecord>)
        ensures
            r@.len() == self@.issues.len(),
            forall|i: int| 0 <= i < r@.len() ==> #[trigger] r@[i]@ == self@.issues[i],
    {
        let mut r: Vec<WorkRecord> = Vec::new();
        let mut i: usize = 0;
        while i < self.issues.len()
            invariant
                i <= self.issues@.len(),
                r@.len() == i,
                forall|k: int| 0 <= k < i ==> #[trigger] r@[k]@ == self@.issues[k],
            decreases self.issues@.len() - i,
        {
            let w = &self.issues[i];
            r.push(WorkRecord { id: w.id, content: w.content.copied(), created_at: w.created_at });
            i = i + 1;
        }
        r
    }

    /// Looks the key up for `owner`. On first use it records the key as in
    /// progress, which holds off every other request with the same key until
    /// this one commits or rolls back, and hands back the transaction to
    /// work in.
    pub fn begin(&mut self, owner: u128, key: &IdempotencyKey) -> (r: Begin)
        requires
            old(self).wf(),
        ensures
            final(self).wf(),
            final(self)@ == begun(old(self)@, owner, key@),
            match r {
                Begin::Fresh(t) => {
                    &&& lookup(old(self)@, owner, key@) == -1
                    &&& t@ == (TxnView { owner, key: key@, issue: None, recipients: Seq::empty() })
                    &&& t@.wf()
                },
                Begin::Cached(resp) => {
                    let i = lookup(old(self)@, owner, key@);
                    &&& i >= 0
                    &&& old(self)@.records[i].response == Some(resp@)
                },
                Begin::InProgress => {
                    let i = lookup(old(self)@, owner, key@);
                    &&& i >= 0
                    &&& old(self)@.records[i].response is None
                },
            },
    {
        match self.find_record(owner, key) {
            Some(i) => {
                proof {
                    lemma_first_index(self@.records, scoped(owner, key@));
                }
                assert(self@.records[i as int] == self.records@[i as int]@);
                match &self.records[i].response {
                    Some(resp) => Begin::Cached(resp.copied()),
                    None => Begin::InProgress,
                }
            },
            None => {
                let ghost before = self@;
                proof {
                    lemma_first_index(before.records, scoped(owner, key@));
                }
                let rec = IdempotencyRecord { owner, key: String::from_str(key.as_str()), response: None };
                self.records.push(rec);
                assert(self@.records =~= before.records.push(RecordView { owner, key: key@, response: None }));
                assert forall|i: int, j: int|
                    0 <= i < j < self@.records.len() implies !same_scope(
                        #[trigger] self@.records[i],
                        #[trigger] self@.records[j],
                    ) by {
                    if j == before.records.len() {
                        assert(!scoped(owner, key@)(before.records[i]));
                    } else {
                        assert(!same_scope(before.records[i], before.records[j]));
                    }
                }
                proof {
                    lemma_rows_keep_work_records(before, self@, |k: int| k);
                }
                assert(self@.issues == before.issues);
                assert(self@.queue == before.queue);
                let t = Transaction { owner, key: key.copied(), issue: None, recipients: Vec::new() };
                assert(t@.recipients =~= Seq::<Seq<char>>::empty());
                Begin::Fresh(t)
            },
        }
    }

    fn remove_record(&mut self, i: usize)
        requires
            old(self).wf(),
            i < old(self)@.records.len(),
        ensures
            final(self).wf(),
            final(self)@ == (StoreView { records: old(self)@.records.remove(i as int), ..old(self)@ }),
    {
        let ghost before = self@;
        self.records.remove(i);
        assert(self@.records =~= before.records.remove(i as int));
        assert forall|a: int, b: int|
            0 <= a < b < self@.records.len() implies !same_scope(
                #[trigger] self@.records[a],
                #[trigger] self@.records[b],
            ) by {
            let a0 = if a < i { a } else { a + 1 };
            let b0 = if b < i { b } else { b + 1 };
            assert(self@.records[a] == before.records[a0]);
            assert(self@.records[b] == before.records[b0]);
            assert(!same_scope(before.records[a0], before.records[b0]));
        }
        proof {
            lemma_rows_keep_work_records(before, self@, |k: int| k);
        }
    }

    /// Abandons the transaction: the key is free again and nothing that the
    /// transaction staged becomes visible.
    pub fn rollback(&mut self, txn: Transaction)
        requires
            old(self).wf(),
        ensures
            final(self).wf(),
            final(self)@ == rolled_back(old(self)@, txn@.owner, txn@.key),
    {
        match self.find_record(txn.owner, &txn.key) {
            Some(i) => {
                proof {
                    lemma_first_index(self@.records, scoped(txn@.owner, txn@.key));
                }
                assert(self@.records[i as int] == self.records@[i as int]@);
                if self.records[i].response.is_none() {
                    self.remove_record(i);
                }
            },
            None => {},
        }
    }

    /// Makes the staged work record and its delivery tasks visible together
    /// with `response`, which is saved under the transaction's key. When the
    /// transaction cannot commit, it is rolled back instead.
    pub fn commit(&mut self, txn: Transaction, response: SavedResponse) -> (r: Result<SavedResponse, CommitError>)
        requires
            old(self).wf(),
            txn@.wf(),
        ensures
            final(self).wf(),
            match r {
                Ok(saved) => {
                    &&& commit_error(old(self)@, txn@) is None
                    &&& saved@ == response@
                    &&& final(self)@ == committed(old(self)@, txn@, response@)
                },
                Err(e) => {
                    &&& commit_error(old(self)@, txn@) == Some(e)
                    &&& final(self)@ == rolled_back(old(self)@, txn@.owner, txn@.key)
                },
            },
    {
        let ghost before = self@;
        let ghost t = txn@;
        let i = match self.find_record(txn.owner, &txn.key) {
            Some(i) => i,
            None => {
                self.rollback(txn);
                return Err(CommitError::NotInProgress);
            },
        };
        proof {
            lemma_first_index(before.records, scoped(t.owner, t.key));
        }
        assert(before.records[i as int] == self.records@[i as int]@);
        if self.records[i].response.is_some() {
            self.rollback(txn);
            return Err(CommitError::NotInProgress);
        }
        let Transaction { owner, key, issue, recipients } = txn;
        let issue = match issue {
            Some(w) => w,
            None => {
                self.remove_record(i);
                return Err(CommitError::NothingStaged);
            },
        };
        if self.has_work_record(issue.id) {
            self.remove_record(i);
            return Err(CommitError::DuplicateWorkRecord);
        }
        let id = issue.id;
        let now = issue.created_at;
        // the work record
        self.issues.push(issue);
        assert(self@.issues =~= before.issues.push(t.issue->0));
        proof {
            lemma_first_index_push(before.issues, t.issue->0, with_id(id));
            assert forall|k: int| 0 <= k < before.queue.len() implies has_issue(
                self@,
                #[trigger] before.queue[k].task.work_record_id,
            ) by {
                assert(has_issue(before, before.queue[k].task.work_record_id));
                lemma_first_index_push_found(before.issues, t.issue->0, with_id(before.queue[k].task.work_record_id));
            }
            assert forall|a: int, b: int|
                0 <= a < b < self@.issues.len() implies #[trigger] self@.issues[a].id != #[trigger] self@.issues[b].id by {
                if b == before.issues.len() {
                    lemma_first_index(before.issues, with_id(id));
                    assert(!with_id(id)(before.issues[a]));
                }
            }
            // no queued row belongs to the new work record
            assert forall|k: int| 0 <= k < before.queue.len() implies #[trigger] before.queue[k].task.work_record_id != id by {
                assert(has_issue(before, before.queue[k].task.work_record_id));
            }
        }
        // its delivery tasks
        let mut j: usize = 0;
        while j < recipients.len()
            invariant
                j <= recipients@.len(),
                t.recipients == recipients@.map_values(|r: String| r@),
                t.wf(),
                t.issue == Some(WorkRecordView { id, content: t.issue->0.content, created_at: now }),
                self.queue.wf(),
                self.queue@ == before.queue + new_rows(id, t.recipients.take(j as int), now),
                self@.records == before.records,
                self@.issues == before.issues.push(t.issue->0),
                forall|k: int| 0 <= k < before.queue.len() ==> #[trigger] before.queue[k].task.work_record_id != id,
                has_issue(self@, id),
                forall|k: int| 0 <= k < before.queue.len() ==> has_issue(self@, #[trigger] before.queue[k].task.work_record_id),
            decreases recipients@.len() - j,
        {
            let ghost q = self.queue@;
            let ghost rj = t.recipients[j as int];
            assert(recipients@[j as int]@ == rj);
            proof {
                assert forall|k: int| 0 <= k < q.len() implies !(#[trigger] keyed(id, rj)(q[k])) by {
                    if k >= before.queue.len() {
                        let m = k - before.queue.len();
                        assert(q[k] == new_rows(id, t.recipients.take(j as int), now)[m]);
                        assert(t.recipients[m] != rj);
                    }
                }
                lemma_first_index(q, keyed(id, rj));
            }
            let task = DeliveryTask::new(id, recipients[j].clone(), now);
            self.queue.enqueue(task);
            assert(new_rows(id, t.recipients.take(j + 1), now) =~= new_rows(id, t.recipients.take(j as int), now).push(
                RowView { task: task@, claimed: false },
            ));
            assert(self.queue@ =~= before.queue + new_rows(id, t.recipients.take(j + 1), now));
            j = j + 1;
        }
        assert(t.recipients.take(j as int) =~= t.recipients);
        // the saved response
        let saved = response.copied();
        let rec = IdempotencyRecord { owner, key: String::from_str(key.as_str()), response: Some(response) };
        self.records.set(i, rec);
        assert(self@.records =~= before.records.update(
            i as int,
            RecordView { owner: t.owner, key: t.key, response: Some(saved@) },
        ));
        assert(self@ == committed(before, t, saved@));
        assert forall|a: int, b: int|
            0 <= a < b < self@.records.len() implies !same_scope(
                #[trigger] self@.records[a],
                #[trigger] self@.records[b],
            ) by {
            assert(!same_scope(before.records[a], before.records[b]));
        }
        assert forall|k: int| 0 <= k < self@.queue.len() implies has_issue(
            self@,
            #[trigger] self@.queue[k].task.work_record_id,
        ) by {
            if k < before.queue.len() {
                assert(self@.queue[k] == before.queue[k]);
            } else {
                assert(self@.queue[k] == new_rows(id, t.recipients, now)[k - before.queue.len()]);
            }
        }
        Ok(saved)
    }

    /// One poll of the delivery worker on the shared queue: claim the first
    /// due task, or sleep for `idle_interval` seconds when none is due.
    pub fn next_step(&mut self, now: u64, idle_interval: u64) -> (r: WorkerStep)
        requires
            old(self).wf(),
        ensures
            final(self).wf(),
            final(self)@ == (StoreView { queue: final(self)@.queue, ..old(self)@ }),
            first_step_view(old(self)@.queue, final(self)@.queue, now, idle_interval, r),
    {
        let ghost before = self@;
        let r = crate::delivery::next_step(&mut self.queue, now, idle_interval);
        proof {
            match &r {
                WorkerStep::Sleep(_) => {},
                WorkerStep::Deliver(t) => {
                    let i = first_index(before.queue, due(now));
                    lemma_first_index(before.queue, due(now));
                    assert(self@.queue == before.queue.update(i, RowView { task: t@, claimed: true }));
                },
            }
        }
        assert(self@.queue.len() == before.queue.len());
        proof {
            lemma_rows_keep_work_records(before, self@, |k: int| k);
        }
        r
    }

    /// Records the channel's answer for a claimed task (`None` when the
    /// attempt timed out) and resolves the task on the shared queue.
    pub fn finish_attempt(
        &mut self,
        task: &DeliveryTask,
        status: Option<u16>,
        policy: RetryPolicy,
        now: u64,
    ) -> (r: Option<Resolution>)
        requires
            old(self).wf(),
        ensures
            final(self).wf(),
            final(self)@ == (StoreView {
                queue: settled(
                    old(self)@.queue,
                    task@.work_record_id,
                    task@.recipient,
                    outcome_of_status(status),
                    policy,
                    now,
                ),
                ..old(self)@
            }),
            match r {
                None => first_index(old(self)@.queue, keyed(task@.work_record_id, task@.recipient)) == -1,
                Some(res) => {
                    let i = first_index(old(self)@.queue, keyed(task@.work_record_id, task@.recipient));
                    &&& i >= 0
                    &&& res == resolution_of(old(self)@.queue[i].task.attempt_count, outcome_of_status(status), policy)
                },
            },
    {
        let ghost before = self@;
        let r = crate::delivery::finish_attempt(&mut self.queue, task, status, policy, now);
        proof {
            let i = first_index(before.queue, keyed(task@.work_record_id, task@.recipient));
            lemma_first_index(before.queue, keyed(task@.work_record_id, task@.recipient));
            if i >= 0 && self@.queue.len() < before.queue.len() {
                assert forall|k: int| 0 <= k < self@.queue.len() implies self@.queue[k] == before.queue[if k < i { k } else { k + 1 }] by {}
                lemma_rows_keep_work_records(before, self@, |k: int| if k < i { k } else { k + 1 });
            } else {
                lemma_rows_keep_work_records(before, self@, |k: int| k);
            }
        }
        r
    }

    /// Releases every claim on the shared queue, as after a worker went
    /// away mid-delivery.
    pub fn release_claims(&mut self)
        requires
            old(self).wf(),
        ensures
            final(self).wf(),
            final(self)@.records == old(self)@.records,
            final(self)@.issues == old(self)@.issues,
            final(self)@.queue.len() == old(self)@.queue.len(),
            forall|i: int|
                0 <= i < old(self)@.queue.len() ==> #[trigger] final(self)@.queue[i] == (RowView {
                    claimed: false,
                    ..old(self)@.queue[i]
                }),
    {
        let ghost before = self@;
        self.queue.release_claims();
        assert(self@.records == before.records);
        assert(self@.issues == before.issues);
        proof {
            lemma_rows_keep_work_records(before, self@, |k: int| k);
        }
    }

    fn find_record(&self, owner: u128, key: &IdempotencyKey) -> (r: Option<usize>)
        ensures
            match r {
                None => lookup(self@, owner, key@) == -1,
                Some(i) => i == lookup(self@, owner, key@),
            },
    {
        let mut i: usize = 0;
        while i < self.records.len()
            invariant
                i <= self.records@.len(),
                forall|j: int| 0 <= j < i ==> !(#[trigger] scoped(owner, key@)(self@.records[j])),
            decreases self.records@.len() - i,
        {
            let rec = &self.records[i];
            assert(self@.records[i as int] == rec@);
            if rec.owner == owner && str_eq(rec.key.as_str(), key.as_str()) {
                proof {
                    lemma_first_index(self@.records, scoped(owner, key@));
                    let k = first_index(self@.records, scoped(owner, key@));
                    assert(scoped(owner, key@)(self@.records[i as int]));
                    if k != -1 && k < i {
                        assert(scoped(owner, key@)(self@.records[k]));
                    }
                }
                return Some(i);
            }
            i = i + 1;
        }
        proof {
            lemma_first_index(self@.records, scoped(owner, key@));
        }
        None
    }

    fn has_work_record(&self, id: u128) -> (r: bool)
        ensures
            r == has_issue(self@, id),
    {
        let mut i: usize = 0;
        while i < self.issues.len()
            invariant
                i <= self.issues@.len(),
                forall|j: int| 0 <= j < i ==> !(#[trigger] with_id(id)(self@.issues[j])),
            decreases self.issues@.len() - i,
        {
            assert(self@.issues[i as int] == self.issues@[i as int]@);
            if self.issues[i].id == id {
                proof {
                    lemma_first_index(self@.issues, with_id(id));
                    assert(with_id(id)(self@.issues[i as int]));
                }
                return true;
            }
            i = i + 1;
        }
        proof {
            lemma_first_index(self@.issues, with_id(id));
        }
        false
    }
}

/// The page that a publish request redirects to.
pub const NEWSLETTERS_PAGE: &'static str = "/admin/newsletters";

/// The recipients of the first `n` entries that get a delivery task: the
/// well-formed addresses, each once.
pub open spec fn fan_out_prefix(recipients: Seq<Seq<char>>, n: nat) -> Seq<Seq<char>>
    decreases n,
{
    if n == 0 {
        Seq::empty()
    } else {
        let prev = fan_out_prefix(recipients, (n - 1) as nat);
        let r = recipients[n - 1];
        if is_valid_email(r) && !prev.contains(r) {
            prev.push(r)
        } else {
            prev
        }
    }
}

pub open spec fn recipient_views(v: Seq<String>) -> Seq<Seq<char>> {
    v.map_values(|x: String| x@)
}

pub open spec fn fan_out(recipients: Seq<Seq<char>>) -> Seq<Seq<char>> {
    fan_out_prefix(recipients, recipients.len())
}

/// The entries among the first `n` that are not well-formed addresses:
/// those that get no delivery task and are reported as skipped.
pub open spec fn malformed_prefix(recipients: Seq<Seq<char>>, n: nat) -> Seq<Seq<char>>
    decreases n,
{
    if n == 0 {
        Seq::empty()
    } else {
        let prev = malformed_prefix(recipients, (n - 1) as nat);
        if is_valid_email(recipients[n - 1]) {
            prev
        } else {
            prev.push(recipients[n - 1])
        }
    }
}

pub open spec fn malformed(recipients: Seq<Seq<char>>) -> Seq<Seq<char>> {
    malformed_prefix(recipients, recipients.len())
}

/// The recipients that publishing leaves out because they are not
/// well-formed addresses, in their order, for the caller to log.
pub fn skipped_recipients(recipients: &Vec<String>) -> (r: Vec<String>)
    ensures
        recipient_views(r@) == malformed(recipient_views(recipients@)),
{
    let ghost rs = recipient_views(recipients@);
    let mut r: Vec<String> = Vec::new();
    let mut j: usize = 0;
    while j < recipients.len()
        invariant
            j <= recipients@.len(),
            rs == recipient_views(recipients@),
            recipient_views(r@) == malformed_prefix(rs, j as nat),
        decreases recipients@.len() - j,
    {
        assert(recipients@[j as int]@ == rs[j as int]);
        if !valid_email(recipients[j].as_str()) {
            let ghost before = recipient_views(r@);
            r.push(recipients[j].clone());
            assert(recipient_views(r@) =~= before.push(rs[j as int]));
        }
        j = j + 1;
    }
    r
}

/// What a publish request answers.
#[derive(Clone, Debug, PartialEq, Eq)]
pub enum PublishReply {
    /// The request was carried out now.
    Accepted(SavedResponse),
    /// The key was used before: the response first sent, unchanged.
    Replayed(SavedResponse),
}

pub enum ReplyView {
    Accepted(ResponseView),
    Replayed(ResponseView),
}

impl View for PublishReply {
    type V = ReplyView;

    open spec fn view(&self) -> ReplyView {
        match self {
            PublishReply::Accepted(r) => ReplyView::Accepted(r@),
            PublishReply::Replayed(r) => ReplyView::Replayed(r@),
        }
    }
}

impl PublishReply {
    /// The response to send, whichever way it came about.
    pub fn response(&self) -> (r: &SavedResponse)
        ensures
            match self {
                PublishReply::Accepted(x) => r == x,
                PublishReply::Replayed(x) => r == x,
            },
    {
        match self {
            PublishReply::Accepted(x) => x,
            PublishReply::Replayed(x) => x,
        }
    }
}

/// Why a publish request failed; nothing was stored.
#[derive(Clone, Copy, Debug, PartialEq, Eq, Structural)]
pub enum PublishError {
    /// The idempotency key is malformed.
    InvalidKey(KeyError),
    /// Another request with the same key has not finished; retry later.
    KeyInProgress,
    /// The store refused the write.
    UnexpectedError,
}

impl PublishError {
    /// The HTTP status that reports the error.
    pub fn status_code(&self) -> (r: u16)
        ensures
            r == match self {
                PublishError::InvalidKey(_) => 400u16,
                PublishError::KeyInProgress => 409u16,
                PublishError::UnexpectedError => 500u16,
            },
    {
        match self {
            PublishError::InvalidKey(_) => 400,
            PublishError::KeyInProgress => 409,
            PublishError::UnexpectedError => 500,
        }
    }
}

pub open spec fn accepted_response() -> ResponseView {
    see_other_view(NEWSLETTERS_PAGE@)
}

/// The store and the answer after `owner` asks to publish `content` to
/// `recipients` under `key`, with `id` for a new work record created at `now`.
pub open spec fn published(
    s: StoreView,
    owner: u128,
    key: Seq<char>,
    content: NewsletterView,
    recipients: Seq<Seq<char>>,
    id: u128,
    now: u64,
) -> (StoreView, Result<ReplyView, PublishError>) {
    match key_error(key) {
        Some(e) => (s, Err(PublishError::InvalidKey(e))),
        None => {
            let i = lookup(s, owner, key);
            if i >= 0 {
                match s.records[i].response {
                    Some(r) => (s, Ok(ReplyView::Replayed(r))),
                    None => (s, Err(PublishError::KeyInProgress)),
                }
            } else if has_issue(s, id) {
                (s, Err(PublishError::UnexpectedError))
            } else {
                (
                    StoreView {
                        records: s.records.push(RecordView { owner, key, response: Some(accepted_response()) }),
                        issues: s.issues.push(WorkRecordView { id, content, created_at: now }),
                        queue: s.queue + new_rows(id, fan_out(recipients), now),
                    },
                    Ok(ReplyView::Accepted(accepted_response())),
                )
            }
        },
    }
}

pub open spec fn reply_view(r: Result<PublishReply, PublishError>) -> Result<ReplyView, PublishError> {
    match r {
        Ok(x) => Ok(x@),
        Err(e) => Err(e),
    }
}

/// Publishes `content` to every well-formed address among `recipients`
/// (each once; malformed ones are left out), at most once per (owner, key):
/// the work record, its delivery tasks and the saved response are written
/// in one transaction, and a repeated key replays the saved response. The
/// replay does not compare payloads: a key reused with other content gets
/// the first response back and publishes nothing.
pub fn publish_newsletter(
    store: &mut Store,
    owner: u128,
    key: String,
    content: &Newsletter,
    recipients: &Vec<String>,
    id: u128,
    now: u64,
) -> (r: Result<PublishReply, PublishError>)
    requires
        old(store).wf(),
    ensures
        final(store).wf(),
        (final(store)@, reply_view(r)) == published(
            old(store)@,
            owner,
            key@,
            content@,
            recipient_views(recipients@),
            id,
            now,
        ),
{
    let ghost rs = recipient_views(recipients@);
    let ghost before = store@;
    let key = match IdempotencyKey::parse(key) {
        Ok(k) => k,
        Err(e) => return Err(PublishError::InvalidKey(e)),
    };
    let mut txn = match store.begin(owner, &key) {
        Begin::Fresh(t) => t,
        Begin::Cached(resp) => return Ok(PublishReply::Replayed(resp)),
        Begin::InProgress => return Err(PublishError::KeyInProgress),
    };
    proof {
        lemma_first_index(before.records, scoped(owner, key@));
        lemma_first_index_push(before.records, RecordView { owner, key: key@, response: None }, scoped(owner, key@));
    }
    txn.insert_work_record(id, content, now);
    let mut j: usize = 0;
    while j < recipients.len()
        invariant
            j <= recipients@.len(),
            rs == recipient_views(recipients@),
            txn@.wf(),
            txn@ == (TxnView {
                owner,
                key: key@,
                issue: Some(WorkRecordView { id, content: content@, created_at: now }),
                recipients: fan_out_prefix(rs, j as nat),
            }),
        decreases recipients@.len() - j,
    {
        assert(recipients@[j as int]@ == rs[j as int]);
        if valid_email(recipients[j].as_str()) {
            txn.enqueue(recipients[j].clone());
        }
        j = j + 1;
    }
    assert(rs.len() == recipients@.len());
    let response = see_other(NEWSLETTERS_PAGE);
    let ghost mid = store@;
    match store.commit(txn, response) {
        Ok(saved) => {
            assert(mid.records.update(
                before.records.len() as int,
                RecordView { owner, key: key@, response: Some(accepted_response()) },
            ) =~= before.records.push(RecordView { owner, key: key@, response: Some(accepted_response()) }));
            Ok(PublishReply::Accepted(saved))
        },
        Err(_) => {
            assert(mid.records.remove(before.records.len() as int) =~= before.records);
            Err(PublishError::UnexpectedError)
        },
    }
}

pub open spec fn response_of(r: ReplyView) -> ResponseView {
    match r {
        ReplyView::Accepted(x) => x,
        ReplyView::Replayed(x) => x,
    }
}

/// Idempotency: once a request of `owner` under `key` has succeeded, every
/// later request under the same key, whatever it carries, leaves the store
/// as it is (no second work record, no second set of tasks) and gets the
/// same response back.
pub proof fn lemma_repeated_key_replays(
    s: StoreView,
    owner: u128,
    key: Seq<char>,
    first: NewsletterView,
    first_recipients: Seq<Seq<char>>,
    first_id: u128,
    first_now: u64,
    later: NewsletterView,
    later_recipients: Seq<Seq<char>>,
    later_id: u128,
    later_now: u64,
)
    requires
        s.wf(),
        published(s, owner, key, first, first_recipients, first_id, first_now).1 is Ok,
    ensures
        ({
            let (s1, r1) = published(s, owner, key, first, first_recipients, first_id, first_now);
            let (s2, r2) = published(s1, owner, key, later, later_recipients, later_id, later_now);
            &&& s2 == s1
            &&& r2 == Ok::<ReplyView, PublishError>(ReplyView::Replayed(response_of(r1->Ok_0)))
        }),
{
    let i = lookup(s, owner, key);
    if i < 0 {
        lemma_first_index_push(
            s.records,
            RecordView { owner, key, response: Some(accepted_response()) },
            scoped(owner, key),
        );
    }
}

/// While the first request under (owner, key) has not committed, every
/// other request under that key fails with a retryable error and changes
/// nothing.
pub proof fn lemma_key_in_progress_blocks(
    s: StoreView,
    owner: u128,
    key: Seq<char>,
    content: NewsletterView,
    recipients: Seq<Seq<char>>,
    id: u128,
    now: u64,
)
    requires
        key_error(key) is None,
        lookup(s, owner, key) == -1,
    ensures
        published(begun(s, owner, key), owner, key, content, recipients, id, now) == (
            begun(s, owner, key),
            Err::<ReplyView, PublishError>(PublishError::KeyInProgress),
        ),
{
    lemma_first_index_push(s.records, RecordView { owner, key, response: None }, scoped(owner, key));
}

/// Key scoping: two owners using the same key each get their own work
/// record, neither seeing the other's request.
pub proof fn lemma_keys_scoped_by_owner(
    s: StoreView,
    a: u128,
    b: u128,
    key: Seq<char>,
    content: NewsletterView,
    recipients: Seq<Seq<char>>,
    id_a: u128,
    id_b: u128,
    now: u64,
)
    requires
        s.wf(),
        a != b,
        key_error(key) is None,
        lookup(s, a, key) == -1,
        lookup(s, b, key) == -1,
        !has_issue(s, id_a),
        !has_issue(s, id_b),
        id_a != id_b,
    ensures
        ({
            let (s1, r1) = published(s, a, key, content, recipients, id_a, now);
            let (s2, r2) = published(s1, b, key, content, recipients, id_b, now);
            &&& r1 == Ok::<ReplyView, PublishError>(ReplyView::Accepted(accepted_response()))
            &&& r2 == Ok::<ReplyView, PublishError>(ReplyView::Accepted(accepted_response()))
            &&& s2.issues == s.issues.push(WorkRecordView { id: id_a, content, created_at: now }).push(
                WorkRecordView { id: id_b, content, created_at: now },
            )
        }),
{
    let ra = RecordView { owner: a, key, response: Some(accepted_response()) };
    let wa = WorkRecordView { id: id_a, content, created_at: now };
    lemma_first_index_push_other(s.records, ra, scoped(b, key));
    lemma_first_index_push_other(s.issues, wa, with_id(id_b));
}

/// Outbox atomicity: a transaction abandoned before it commits (whatever it
/// staged meanwhile) leaves the store exactly as it was before it began: no
/// work record, no delivery task, and the key free again.
pub proof fn lemma_abandoned_transaction_leaves_no_trace(s: StoreView, owner: u128, key: Seq<char>)
    requires
        s.wf(),
        lookup(s, owner, key) == -1,
    ensures
        rolled_back(begun(s, owner, key), owner, key) == s,
{
    let sentinel = RecordView { owner, key, response: None };
    lemma_first_index_push(s.records, sentinel, scoped(owner, key));
    assert(s.records.push(sentinel).remove(s.records.len() as int) =~= s.records);
}

/// Whether a request was answered with the response of an accepted
/// publication, first sent or replayed.
pub open spec fn gives_accepted_response(r: Result<ReplyView, PublishError>) -> bool {
    r matches Ok(x) && response_of(x) == accepted_response()
}

/// The store and the answers after one request per entry of `ids`, in
/// turn, all by `owner` under `key` with the same content and recipients;
/// the request at `ids[k]` would create its work record with that id.
pub open spec fn published_all(
    s: StoreView,
    owner: u128,
    key: Seq<char>,
    content: NewsletterView,
    recipients: Seq<Seq<char>>,
    ids: Seq<u128>,
    now: u64,
) -> (StoreView, Seq<Result<ReplyView, PublishError>>)
    decreases ids.len(),
{
    if ids.len() == 0 {
        (s, Seq::empty())
    } else {
        let (before, replies) = published_all(s, owner, key, content, recipients, ids.drop_last(), now);
        let (after, reply) = published(before, owner, key, content, recipients, ids.last(), now);
        (after, replies.push(reply))
    }
}

/// Idempotency over any number of requests: N requests of `owner` under a
/// fresh valid key with the same payload, the first of which draws an
/// unused work-record id, leave exactly one work record holding that
/// payload and one set of delivery tasks, and every one of the N callers
/// gets the same response.
pub proof fn lemma_many_requests_one_effect(
    s: StoreView,
    owner: u128,
    key: Seq<char>,
    content: NewsletterView,
    recipients: Seq<Seq<char>>,
    ids: Seq<u128>,
    now: u64,
)
    requires
        s.wf(),
        key_error(key) is None,
        lookup(s, owner, key) == -1,
        ids.len() >= 1,
        !has_issue(s, ids[0]),
    ensures
        ({
            let (t, replies) = published_all(s, owner, key, content, recipients, ids, now);
            &&& t.issues == s.issues.push(WorkRecordView { id: ids[0], content, created_at: now })
            &&& t.queue == s.queue + new_rows(ids[0], fan_out(recipients), now)
            &&& t == published(s, owner, key, content, recipients, ids[0], now).0
            &&& replies.len() == ids.len()
            &&& forall|k: int| 0 <= k < replies.len() ==> gives_accepted_response(#[trigger] replies[k])
        }),
    decreases ids.len(),
{
    let first = published(s, owner, key, content, recipients, ids[0], now);
    let shorter = ids.drop_last();
    let (before, replies) = published_all(s, owner, key, content, recipients, shorter, now);
    let (t, all) = published_all(s, owner, key, content, recipients, ids, now);
    assert(published(before, owner, key, content, recipients, ids.last(), now) == (t, all.last()) && all == replies.push(
        all.last(),
    ));
    if ids.len() == 1 {
        assert(shorter.len() == 0);
        assert(before == s && replies == Seq::<Result<ReplyView, PublishError>>::empty());
        assert(ids.last() == ids[0]);
        assert(all[0] == first.1);
    } else {
        assert(shorter[0] == ids[0]);
        lemma_many_requests_one_effect(s, owner, key, content, recipients, shorter, now);
        lemma_repeated_key_replays(s, owner, key, content, recipients, ids[0], now, content, recipients, ids.last(), now);
        assert forall|k: int| 0 <= k < all.len() implies gives_accepted_response(#[trigger] all[k]) by {
            if k < replies.len() {
                assert(all[k] == replies[k]);
            }
        }
    }
}

/// Relies on uuid's `Uuid::new_v4`: a fresh random identifier, of which
/// nothing is promised.
#[verifier::external_body]
fn random_id() -> (r: u128) {
    uuid::Uuid::new_v4().as_u128()
}

#[verifier::external_type_specification]
#[verifier::external_body]
pub struct ExSystemTime(std::time::SystemTime);

/// Relies on `SystemTime::now`: the system clock's reading, of which
/// nothing is promised.
#[verifier::external_body]
fn clock_reading() -> (r: std::time::SystemTime) {
    std::time::SystemTime::now()
}

/// Relies on `SystemTime::duration_since(UNIX_EPOCH)`: whole seconds since
/// the Unix epoch, or 0 for a reading before it (the call's error).
#[verifier::external_body]
fn seconds_since_epoch(t: std::time::SystemTime) -> (r: u64) {
    match t.duration_since(std::time::UNIX_EPOCH) {
        Ok(d) => d.as_secs(),
        Err(_) => 0,
    }
}

/// `publish_newsletter` with a random work record id and the current time.
pub fn publish_newsletter_now(
    store: &mut Store,
    owner: u128,
    key: String,
    content: &Newsletter,
    recipients: &Vec<String>,
) -> (r: Result<PublishReply, PublishError>)
    requires
        old(store).wf(),
    ensures
        final(store).wf(),
        exists|id: u128, now: u64|
            (final(store)@, reply_view(r)) == #[trigger] published(
                old(store)@,
                owner,
                key@,
                content@,
                recipient_views(recipients@),
                id,
                now,
            ),
{
    let id = random_id();
    let now = seconds_since_epoch(clock_reading());
    publish_newsletter(store, owner, key, content, recipients, id, now)
}

} // verus!
