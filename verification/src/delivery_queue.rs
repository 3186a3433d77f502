//! The delivery queue: one row for each (issue, recipient) pair that still
//! has to be attempted, with the lock that a worker's transaction holds on
//! the row it is processing.

use vstd::prelude::*;

use crate::text::str_eq;

verus! {

/// One pending obligation: deliver this issue to this recipient.
pub struct DeliveryTask {
    pub issue_id: u128,
    pub recipient: String,
}

/// A task as contracts see it: the issue and the recipient's address.
pub type TaskKey = (u128, Seq<char>);

impl View for DeliveryTask {
    type V = TaskKey;

    open spec fn view(&self) -> TaskKey {
        (self.issue_id, self.recipient@)
    }
}

impl DeliveryTask {
    /// A copy of the task.
    pub fn duplicate(&self) -> (t: DeliveryTask)
        ensures
            t@ == self@,
    {
        DeliveryTask { issue_id: self.issue_id, recipient: self.recipient.clone() }
    }
}

/// A queue row as contracts see it.
pub struct Row {
    /// The task that the row stands for.
    pub key: TaskKey,
    /// The transaction that has the row locked, if any.
    pub holder: Option<u64>,
}

/// No two rows stand for the same task.
pub open spec fn distinct_keys(rows: Seq<Row>) -> bool {
    forall|i: int, j: int|
        0 <= i < rows.len() && 0 <= j < rows.len() && i != j ==> (#[trigger] rows[i]).key != (
        #[trigger] rows[j]).key
}

/// Whether some row stands for `key`.
pub open spec fn has_task(rows: Seq<Row>, key: TaskKey) -> bool {
    exists|i: int| 0 <= i < rows.len() && (#[trigger] rows[i]).key == key
}

/// How many rows belong to `issue_id`.
pub open spec fn pending_count(rows: Seq<Row>, issue_id: u128) -> nat
    decreases rows.len(),
{
    if rows.len() == 0 {
        0
    } else {
        pending_count(rows.drop_last(), issue_id) + if rows.last().key.0 == issue_id {
            1nat
        } else {
            0nat
        }
    }
}

/// The index of the first row that no transaction holds, or the number of
/// rows if every row is held.
pub open spec fn first_free(rows: Seq<Row>) -> int
    decreases rows.len(),
{
    if rows.len() == 0 {
        0
    } else if rows[0].holder is None {
        0
    } else {
        1 + first_free(rows.drop_first())
    }
}

/// The index of the row that stands for `key`, or the number of rows if
/// there is none.
pub open spec fn position_of(rows: Seq<Row>, key: TaskKey) -> int
    decreases rows.len(),
{
    if rows.len() == 0 {
        0
    } else if rows[0].key == key {
        0
    } else {
        1 + position_of(rows.drop_first(), key)
    }
}

/// The rows after the transaction `holder` has ended without deleting
/// anything: every row it held is free again.
pub open spec fn released(rows: Seq<Row>, holder: u64) -> Seq<Row> {
    Seq::new(
        rows.len(),
        |i: int|
            if rows[i].holder == Some(holder) {
                Row { key: rows[i].key, holder: None }
            } else {
                rows[i]
            },
    )
}

/// The rows that enqueuing `recipients` for `issue_id` appends, all free.
pub open spec fn fresh_rows(issue_id: u128, recipients: Seq<Seq<char>>) -> Seq<Row> {
    Seq::new(recipients.len(), |i: int| Row { key: (issue_id, recipients[i]), holder: None })
}

/// Whether `recipients` can be enqueued for `issue_id`: no address occurs
/// twice, and none has a row for that issue already.
pub open spec fn can_enqueue(rows: Seq<Row>, issue_id: u128, recipients: Seq<Seq<char>>) -> bool {
    &&& recipients.no_duplicates()
    &&& forall|i: int|
        0 <= i < recipients.len() ==> !has_task(rows, (issue_id, #[trigger] recipients[i]))
}

/// `first_free` is the least index of a free row: every row before it is
/// held, and the row at it, if there is one, is free.
pub proof fn lemma_first_free(rows: Seq<Row>)
    ensures
        0 <= first_free(rows) <= rows.len(),
        forall|i: int| 0 <= i < first_free(rows) ==> (#[trigger] rows[i]).holder is Some,
        first_free(rows) < rows.len() ==> rows[first_free(rows)].holder is None,
    decreases rows.len(),
{
    if rows.len() > 0 && rows[0].holder is Some {
        let rest = rows.drop_first();
        lemma_first_free(rest);
        assert forall|i: int| 0 <= i < first_free(rows) implies (#[trigger] rows[i]).holder
            is Some by {
            if i > 0 {
                assert(rows[i] == rest[i - 1]);
            }
        }
        if first_free(rows) < rows.len() {
            assert(rows[first_free(rows)] == rest[first_free(rest)]);
        }
    }
}

/// `position_of` is the least index of a row of the task, and is within
/// the rows exactly when the task has a row.
pub proof fn lemma_position_of(rows: Seq<Row>, key: TaskKey)
    ensures
        0 <= position_of(rows, key) <= rows.len(),
        forall|i: int| 0 <= i < position_of(rows, key) ==> (#[trigger] rows[i]).key != key,
        position_of(rows, key) < rows.len() ==> rows[position_of(rows, key)].key == key,
        position_of(rows, key) < rows.len() <==> has_task(rows, key),
    decreases rows.len(),
{
    if rows.len() > 0 && rows[0].key != key {
        let rest = rows.drop_first();
        lemma_position_of(rest, key);
        assert forall|i: int| 0 <= i < position_of(rows, key) implies (#[trigger] rows[i]).key
            != key by {
            if i > 0 {
                assert(rows[i] == rest[i - 1]);
            }
        }
        if position_of(rows, key) < rows.len() {
            assert(rows[position_of(rows, key)] == rest[position_of(rest, key)]);
        }
    }
    let p = position_of(rows, key);
    if p < rows.len() {
        assert(rows[p].key == key);
    } else if has_task(rows, key) {
        let i = choose|i: int| 0 <= i < rows.len() && (#[trigger] rows[i]).key == key;
        assert(rows[i].key != key);
    }
}


/// The count looks at the rows' tasks only, not at who holds them.
pub proof fn lemma_count_same_keys(a: Seq<Row>, b: Seq<Row>, issue_id: u128)
    requires
        a.len() == b.len(),
        forall|i: int| 0 <= i < a.len() ==> (#[trigger] a[i]).key == b[i].key,
    ensures
        pending_count(a, issue_id) == pending_count(b, issue_id),
    decreases a.len(),
{
    if a.len() > 0 {
        assert(a.last().key == b.last().key);
        lemma_count_same_keys(a.drop_last(), b.drop_last(), issue_id);
    }
}

/// The count of a concatenation is the sum of the counts.
pub proof fn lemma_count_concat(a: Seq<Row>, b: Seq<Row>, issue_id: u128)
    ensures
        pending_count(a + b, issue_id) == pending_count(a, issue_id) + pending_count(b, issue_id),
    decreases b.len(),
{
    if b.len() == 0 {
        assert(a + b =~= a);
    } else {
        assert((a + b).drop_last() =~= a + b.drop_last());
        assert((a + b).last() == b.last());
        lemma_count_concat(a, b.drop_last(), issue_id);
    }
}

/// Removing one row lowers the count of its issue by one and leaves the
/// counts of the other issues alone.
pub proof fn lemma_count_remove(rows: Seq<Row>, i: int, issue_id: u128)
    requires
        0 <= i < rows.len(),
    ensures
        pending_count(rows, issue_id) == pending_count(rows.remove(i), issue_id) + if rows[i].key.0
            == issue_id {
            1nat
        } else {
            0nat
        },
{
    let front = rows.subrange(0, i);
    let one = rows.subrange(i, i + 1);
    let back = rows.subrange(i + 1, rows.len() as int);
    assert(rows =~= front + one + back);
    assert(rows.remove(i) =~= front + back);
    lemma_count_concat(front + one, back, issue_id);
    lemma_count_concat(front, one, issue_id);
    lemma_count_concat(front, back, issue_id);
    assert(one.drop_last() =~= Seq::<Row>::empty());
    assert(one.last() == rows[i]);
    assert(pending_count(one.drop_last(), issue_id) == 0);
}

/// Freshly enqueued rows count once each for their issue and not at all
/// for any other.
pub proof fn lemma_count_fresh(issue_id: u128, recipients: Seq<Seq<char>>, other: u128)
    ensures
        pending_count(fresh_rows(issue_id, recipients), other) == if other == issue_id {
            recipients.len()
        } else {
            0nat
        },
    decreases recipients.len(),
{
    let rows = fresh_rows(issue_id, recipients);
    if recipients.len() > 0 {
        assert(rows.drop_last() =~= fresh_rows(issue_id, recipients.drop_last()));
        lemma_count_fresh(issue_id, recipients.drop_last(), other);
    }
}

/// Appending the rows of an acceptable batch keeps the rows distinct.
pub proof fn lemma_enqueue_distinct(
    rows: Seq<Row>,
    issue_id: u128,
    recipients: Seq<Seq<char>>,
    k: int,
)
    requires
        distinct_keys(rows),
        can_enqueue(rows, issue_id, recipients),
        0 <= k <= recipients.len(),
    ensures
        distinct_keys(rows + fresh_rows(issue_id, recipients.subrange(0, k))),
{
    let all = rows + fresh_rows(issue_id, recipients.subrange(0, k));
    assert forall|a: int, b: int| 0 <= a < all.len() && 0 <= b < all.len() && a != b implies (
    #[trigger] all[a]).key != (#[trigger] all[b]).key by {
        let n = rows.len() as int;
        if a < n && b < n {
        } else if a >= n && b >= n {
            assert(recipients[a - n] != recipients[b - n]);
        } else if a < n {
            assert(!has_task(rows, (issue_id, recipients[b - n])));
            assert(rows[a].key != (issue_id, recipients[b - n]));
        } else {
            assert(!has_task(rows, (issue_id, recipients[a - n])));
            assert(rows[b].key != (issue_id, recipients[a - n]));
        }
    }
}

/// The rows after `holder` has locked the first free row.
pub open spec fn locked(rows: Seq<Row>, holder: u64) -> Seq<Row>
    recommends
        first_free(rows) < rows.len(),
{
    let p = first_free(rows);
    rows.update(p, Row { key: rows[p].key, holder: Some(holder) })
}

/// The rows after the row of `key` has been deleted.
pub open spec fn deleted(rows: Seq<Row>, key: TaskKey) -> Seq<Row>
    recommends
        has_task(rows, key),
{
    rows.remove(position_of(rows, key))
}

/// Enqueuing a batch raises the count of its issue by the number of
/// recipients and leaves the count of every other issue as it was.
pub proof fn lemma_enqueue_counts(
    rows: Seq<Row>,
    issue_id: u128,
    recipients: Seq<Seq<char>>,
    other: u128,
)
    ensures
        pending_count(rows + fresh_rows(issue_id, recipients), issue_id) == pending_count(
            rows,
            issue_id,
        ) + recipients.len(),
        other != issue_id ==> pending_count(rows + fresh_rows(issue_id, recipients), other)
            == pending_count(rows, other),
{
    lemma_count_concat(rows, fresh_rows(issue_id, recipients), issue_id);
    lemma_count_concat(rows, fresh_rows(issue_id, recipients), other);
    lemma_count_fresh(issue_id, recipients, issue_id);
    lemma_count_fresh(issue_id, recipients, other);
}

/// One completed attempt, which locks the first free row and then deletes
/// it, removes exactly that row: the count of its issue goes down by one,
/// the count of every other issue stays, and no other row changes.
pub proof fn lemma_attempt_removes_one(rows: Seq<Row>, holder: u64, other: u128)
    requires
        distinct_keys(rows),
        first_free(rows) < rows.len(),
    ensures
        ({
            let p = first_free(rows);
            let key = rows[p].key;
            let after = deleted(locked(rows, holder), key);
            &&& 0 <= p
            &&& after == rows.remove(p)
            &&& after.len() + 1 == rows.len()
            &&& pending_count(after, key.0) + 1 == pending_count(rows, key.0)
            &&& other != key.0 ==> pending_count(after, other) == pending_count(rows, other)
            &&& !has_task(after, key)
            &&& distinct_keys(after)
        }),
{
    lemma_first_free(rows);
    let p = first_free(rows);
    let key = rows[p].key;
    let held = locked(rows, holder);
    lemma_position_of(held, key);
    assert(position_of(held, key) == p) by {
        let q = position_of(held, key);
        assert(held[p].key == key);
        if q < p {
            assert(held[q].key == rows[q].key);
        } else if q > p {
            assert(held[p].key != key);
        }
    }
    assert(held.remove(p) =~= rows.remove(p));
    lemma_count_remove(rows, p, key.0);
    lemma_count_remove(rows, p, other);
    let after = rows.remove(p);
    assert forall|a: int, b: int| 0 <= a < after.len() && 0 <= b < after.len() && a != b implies (
    #[trigger] after[a]).key != (#[trigger] after[b]).key by {
        let a0 = if a < p { a } else { a + 1 };
        let b0 = if b < p { b } else { b + 1 };
        assert(after[a] == rows[a0]);
        assert(after[b] == rows[b0]);
    }
    assert(!has_task(after, key)) by {
        if has_task(after, key) {
            let a = choose|a: int| 0 <= a < after.len() && (#[trigger] after[a]).key == key;
            let a0 = if a < p { a } else { a + 1 };
            assert(after[a] == rows[a0]);
            assert(rows[a0].key != rows[p].key);
        }
    }
}

/// A row that a transaction holds is never handed to another: locking
/// passes it over and leaves it as it is.
pub proof fn lemma_held_row_is_passed_over(rows: Seq<Row>, holder: u64, i: int)
    requires
        0 <= i < rows.len(),
        rows[i].holder is Some,
    ensures
        first_free(rows) != i,
        first_free(rows) < rows.len() ==> locked(rows, holder)[i] == rows[i],
{
    lemma_first_free(rows);
}

/// Locking finds a row exactly when some row is free: no free row is
/// left waiting behind rows that are held.
pub proof fn lemma_free_row_is_found(rows: Seq<Row>)
    ensures
        first_free(rows) < rows.len() <==> exists|i: int|
            0 <= i < rows.len() && (#[trigger] rows[i]).holder is None,
{
    lemma_first_free(rows);
    if first_free(rows) < rows.len() {
        assert(rows[first_free(rows)].holder is None);
    }
}

/// After a transaction has ended without deleting, none of the rows is
/// held by it, the rows of other transactions stay held, and no task has
/// come or gone.
pub proof fn lemma_release_frees(rows: Seq<Row>, holder: u64, issue_id: u128)
    ensures
        released(rows, holder).len() == rows.len(),
        forall|i: int|
            0 <= i < rows.len() ==> (#[trigger] released(rows, holder)[i]).holder != Some(holder),
        forall|i: int|
            0 <= i < rows.len() && rows[i].holder != Some(holder) ==> (#[trigger] released(
                rows,
                holder,
            )[i]) == rows[i],
        pending_count(released(rows, holder), issue_id) == pending_count(rows, issue_id),
{
    lemma_count_same_keys(released(rows, holder), rows, issue_id);
}

/// One operation of a worker's transaction on the queue.
pub enum QueueOp {
    /// `deque_task` on behalf of `holder`.
    Lock { holder: u64 },
    /// `delete_task` on behalf of `holder`.
    Delete { holder: u64, key: TaskKey },
    /// `release` of `holder`.
    Release { holder: u64 },
}

/// The rows after one operation.
pub open spec fn queue_apply(rows: Seq<Row>, op: QueueOp) -> Seq<Row> {
    match op {
        QueueOp::Lock { holder } => if first_free(rows) < rows.len() {
            locked(rows, holder)
        } else {
            rows
        },
        QueueOp::Delete { holder, key } => {
            let p = position_of(rows, key);
            if p < rows.len() && rows[p].holder == Some(holder) {
                deleted(rows, key)
            } else {
                rows
            }
        },
        QueueOp::Release { holder } => released(rows, holder),
    }
}

/// The rows after the operations `ops`, in their order.
pub open spec fn queue_apply_all(rows: Seq<Row>, ops: Seq<QueueOp>) -> Seq<Row>
    decreases ops.len(),
{
    if ops.len() == 0 {
        rows
    } else {
        queue_apply(queue_apply_all(rows, ops.drop_last()), ops.last())
    }
}

/// Whether `op` hands the task `key` to a worker.
pub open spec fn hands_out(rows: Seq<Row>, op: QueueOp, key: TaskKey) -> bool {
    op is Lock && first_free(rows) < rows.len() && rows[first_free(rows)].key == key
}

/// How often the operations `ops` hand the task `key` to a worker.
pub open spec fn times_handed_out(rows: Seq<Row>, ops: Seq<QueueOp>, key: TaskKey) -> nat
    decreases ops.len(),
{
    if ops.len() == 0 {
        0
    } else {
        times_handed_out(rows, ops.drop_last(), key) + if hands_out(
            queue_apply_all(rows, ops.drop_last()),
            ops.last(),
            key,
        ) {
            1nat
        } else {
            0nat
        }
    }
}

/// Whether none of the operations releases a lock without deleting.
pub open spec fn no_release(ops: Seq<QueueOp>) -> bool {
    forall|i: int| 0 <= i < ops.len() ==> !((#[trigger] ops[i]) is Release)
}

/// Whether the task `key` has a row that no transaction holds.
pub open spec fn is_free(rows: Seq<Row>, key: TaskKey) -> bool {
    exists|i: int| 0 <= i < rows.len() && (#[trigger] rows[i]).key == key && rows[i].holder is None
}

/// No operation makes two rows of one task.
pub proof fn lemma_op_keeps_distinct(rows: Seq<Row>, op: QueueOp)
    requires
        distinct_keys(rows),
    ensures
        distinct_keys(queue_apply(rows, op)),
{
    let out = queue_apply(rows, op);
    lemma_first_free(rows);
    match op {
        QueueOp::Lock { holder } => {
            assert forall|a: int, b: int|
                0 <= a < out.len() && 0 <= b < out.len() && a != b implies (#[trigger] out[a]).key
                != (#[trigger] out[b]).key by {
                assert(out[a].key == rows[a].key && out[b].key == rows[b].key);
            }
        },
        QueueOp::Delete { holder, key } => {
            lemma_position_of(rows, key);
            let p = position_of(rows, key);
            if p < rows.len() && rows[p].holder == Some(holder) {
                assert forall|a: int, b: int|
                    0 <= a < out.len() && 0 <= b < out.len() && a != b implies (
                #[trigger] out[a]).key != (#[trigger] out[b]).key by {
                    let a0 = if a < p { a } else { a + 1 };
                    let b0 = if b < p { b } else { b + 1 };
                    assert(out[a] == rows[a0] && out[b] == rows[b0]);
                }
            }
        },
        QueueOp::Release { holder } => {
            assert forall|a: int, b: int|
                0 <= a < out.len() && 0 <= b < out.len() && a != b implies (#[trigger] out[a]).key
                != (#[trigger] out[b]).key by {
                assert(out[a].key == rows[a].key && out[b].key == rows[b].key);
            }
        },
    }
}

/// A task without a free row stays without one as long as no lock is
/// released, and the operation that hands a task out leaves it without
/// a free row.
pub proof fn lemma_op_keeps_taken(rows: Seq<Row>, op: QueueOp, key: TaskKey)
    requires
        distinct_keys(rows),
        !(op is Release),
        !is_free(rows, key) || hands_out(rows, op, key),
    ensures
        !is_free(queue_apply(rows, op), key),
{
    let out = queue_apply(rows, op);
    lemma_first_free(rows);
    if is_free(out, key) {
        let i = choose|i: int|
            0 <= i < out.len() && (#[trigger] out[i]).key == key && out[i].holder is None;
        match op {
            QueueOp::Lock { holder } => {
                let f = first_free(rows);
                if f < rows.len() {
                    assert(out[i].key == rows[i].key);
                    if i != f {
                        assert(out[i] == rows[i]);
                        assert(rows[i].key != rows[f].key);
                    }
                } else {
                    assert(rows[i].key == key && rows[i].holder is None);
                }
            },
            QueueOp::Delete { holder, key: k } => {
                lemma_position_of(rows, k);
                let p = position_of(rows, k);
                if p < rows.len() && rows[p].holder == Some(holder) {
                    let i0 = if i < p { i } else { i + 1 };
                    assert(out[i] == rows[i0]);
                    assert(rows[i0].key == key && rows[i0].holder is None);
                } else {
                    assert(rows[i].key == key && rows[i].holder is None);
                }
            },
            QueueOp::Release { holder } => {},
        }
    }
}

/// No double delivery: whatever workers lock and delete rows, in
/// whatever order, as long as no lock is released without a deletion a
/// task is handed out at most once, and not at all if it had no free
/// row to begin with. Once it was handed out it has no free row, so
/// that no other worker can get it.
pub proof fn lemma_handed_out_at_most_once(rows: Seq<Row>, ops: Seq<QueueOp>, key: TaskKey)
    requires
        distinct_keys(rows),
        no_release(ops),
    ensures
        times_handed_out(rows, ops, key) <= 1,
        !is_free(rows, key) ==> times_handed_out(rows, ops, key) == 0,
        !is_free(rows, key) || times_handed_out(rows, ops, key) == 1 ==> !is_free(
            queue_apply_all(rows, ops),
            key,
        ),
        distinct_keys(queue_apply_all(rows, ops)),
    decreases ops.len(),
{
    if ops.len() > 0 {
        let front = ops.drop_last();
        assert(no_release(front)) by {
            assert forall|i: int| 0 <= i < front.len() implies !((#[trigger] front[i])
                is Release) by {
                assert(front[i] == ops[i]);
            }
        }
        lemma_handed_out_at_most_once(rows, front, key);
        let before = queue_apply_all(rows, front);
        assert(!(ops[ops.len() - 1] is Release));
        lemma_op_keeps_distinct(before, ops.last());
        lemma_first_free(before);
        if hands_out(before, ops.last(), key) {
            assert(before[first_free(before)].holder is None);
            assert(is_free(before, key));
            lemma_op_keeps_taken(before, ops.last(), key);
        } else if !is_free(before, key) {
            lemma_op_keeps_taken(before, ops.last(), key);
        }
    }
}

struct QueueRow {
    task: DeliveryTask,
    holder: Option<u64>,
}

/// The rows of the queue, in the order in which they were enqueued.
pub struct DeliveryQueue {
    rows: Vec<QueueRow>,
}

/// The rows as contracts see them.
spec fn rows_view(rows: Seq<QueueRow>) -> Seq<Row> {
    Seq::new(rows.len(), |i: int| Row { key: rows[i].task@, holder: rows[i].holder })
}

impl View for DeliveryQueue {
    type V = Seq<Row>;

    closed spec fn view(&self) -> Seq<Row> {
        rows_view(self.rows@)
    }
}

/// The addresses of `recipients` as contracts see them.
pub open spec fn addresses(recipients: Seq<String>) -> Seq<Seq<char>> {
    Seq::new(recipients.len(), |i: int| recipients[i]@)
}

/// Why a batch of tasks was not enqueued.
#[derive(Debug, Clone, Copy, PartialEq, Eq, Structural)]
pub enum EnqueueError {
    /// An address occurs twice among the recipients, or already has a row
    /// for the issue.
    DuplicateTask,
}

/// Why a task was not deleted.
#[derive(Debug, Clone, Copy, PartialEq, Eq, Structural)]
pub enum DeleteError {
    /// The queue has no row for the task.
    NoSuchTask,
    /// The row is not locked by the transaction that asked.
    NotHeld,
}

impl DeliveryQueue {
    /// The queue never holds two rows for one task.
    #[verifier::type_invariant]
    spec fn well_formed(self) -> bool {
        distinct_keys(rows_view(self.rows@))
    }

    /// An empty queue.
    pub fn new() -> (q: DeliveryQueue)
        ensures
            q@ == Seq::<Row>::empty(),
    {
        let q = DeliveryQueue { rows: Vec::new() };
        assert(rows_view(q.rows@) =~= Seq::<Row>::empty());
        q
    }

    /// Moves the rows out, leaving the queue empty.
    fn take_rows(&mut self) -> (rows: Vec<QueueRow>)
        ensures
            rows_view(rows@) == old(self)@,
            distinct_keys(old(self)@),
            final(self)@ == Seq::<Row>::empty(),
    {
        proof {
            use_type_invariant(&*self);
        }
        let mut taken = DeliveryQueue::new();
        core::mem::swap(self, &mut taken);
        let DeliveryQueue { rows } = taken;
        rows
    }

    /// Replaces the rows.
    fn put_rows(&mut self, rows: Vec<QueueRow>)
        requires
            distinct_keys(rows_view(rows@)),
        ensures
            final(self)@ == rows_view(rows@),
    {
        *self = DeliveryQueue { rows };
    }

    /// The number of rows.
    pub fn len(&self) -> (n: usize)
        ensures
            n == self@.len(),
            distinct_keys(self@),
    {
        proof {
            use_type_invariant(self);
        }
        self.rows.len()
    }

    /// The number of rows that belong to `issue_id`.
    pub fn pending_for(&self, issue_id: u128) -> (n: usize)
        ensures
            n == pending_count(self@, issue_id),
    {
        let mut n: usize = 0;
        let mut i: usize = 0;
        while i < self.rows.len()
            invariant
                i <= self.rows.len(),
                n <= i,
                n == pending_count(self@.subrange(0, i as int), issue_id),
            decreases self.rows.len() - i,
        {
            proof {
                let next = self@.subrange(0, i + 1);
                assert(next.drop_last() =~= self@.subrange(0, i as int));
                assert(next.last() == self@[i as int]);
            }
            if self.rows[i].task.issue_id == issue_id {
                n += 1;
            }
            i += 1;
        }
        assert(self@.subrange(0, i as int) =~= self@);
        n
    }

    /// The index of the row for the task (`issue_id`, `recipient`).
    fn find(&self, issue_id: u128, recipient: &str) -> (p: usize)
        ensures
            p == position_of(self@, (issue_id, recipient@)),
            p <= self@.len(),
    {
        let ghost key = (issue_id, recipient@);
        let mut i: usize = 0;
        assert(self@.subrange(0, self@.len() as int) =~= self@);
        while i < self.rows.len()
            invariant
                i <= self.rows.len(),
                key == (issue_id, recipient@),
                position_of(self@, key) == i + position_of(
                    self@.subrange(i as int, self@.len() as int),
                    key,
                ),
            decreases self.rows.len() - i,
        {
            let ghost rest = self@.subrange(i as int, self@.len() as int);
            assert(rest[0] == self@[i as int]);
            assert(rest.drop_first() =~= self@.subrange(i + 1, self@.len() as int));
            if self.rows[i].task.issue_id == issue_id && str_eq(
                self.rows[i].task.recipient.as_str(),
                recipient,
            ) {
                return i;
            }
            i += 1;
        }
        assert(self@.subrange(i as int, self@.len() as int) =~= Seq::<Row>::empty());
        i
    }

    /// Whether the queue has a row for the task (`issue_id`, `recipient`).
    pub fn contains(&self, issue_id: u128, recipient: &str) -> (b: bool)
        ensures
            b == has_task(self@, (issue_id, recipient@)),
    {
        let p = self.find(issue_id, recipient);
        proof {
            lemma_position_of(self@, (issue_id, recipient@));
        }
        p < self.rows.len()
    }

    /// Whether `recipients` can be enqueued for `issue_id`.
    pub fn accepts(&self, issue_id: u128, recipients: &Vec<String>) -> (b: bool)
        ensures
            b == can_enqueue(self@, issue_id, addresses(recipients@)),
    {
        let ghost addrs = addresses(recipients@);
        let mut i: usize = 0;
        while i < recipients.len()
            invariant
                i <= recipients.len(),
                addrs == addresses(recipients@),
                forall|j: int| 0 <= j < i ==> !has_task(self@, (issue_id, #[trigger] addrs[j])),
                forall|a: int, b: int| 0 <= a < b < i ==> addrs[a] != addrs[b],
            decreases recipients.len() - i,
        {
            if self.contains(issue_id, recipients[i].as_str()) {
                assert(has_task(self@, (issue_id, addrs[i as int])));
                return false;
            }
            let mut k: usize = 0;
            while k < i
                invariant
                    k <= i,
                    i < recipients.len(),
                    addrs == addresses(recipients@),
                    forall|a: int| 0 <= a < k ==> addrs[a] != addrs[i as int],
                decreases i - k,
            {
                if str_eq(recipients[k].as_str(), recipients[i].as_str()) {
                    assert(addrs[k as int] == addrs[i as int]);
                    return false;
                }
                k += 1;
            }
            i += 1;
        }
        true
    }

    /// Appends one free row per recipient, or nothing at all: if an address
    /// occurs twice or already has a row for the issue, the queue stays as
    /// it was.
    pub fn enqueue(&mut self, issue_id: u128, recipients: &Vec<String>) -> (r: Result<
        (),
        EnqueueError,
    >)
        ensures
            match r {
                Ok(()) => can_enqueue(old(self)@, issue_id, addresses(recipients@)) && final(self)@
                    == old(self)@ + fresh_rows(issue_id, addresses(recipients@)),
                Err(e) => e == EnqueueError::DuplicateTask && !can_enqueue(
                    old(self)@,
                    issue_id,
                    addresses(recipients@),
                ) && final(self)@ == old(self)@,
            },
            distinct_keys(final(self)@),
    {
        proof {
            use_type_invariant(&*self);
        }
        if !self.accepts(issue_id, recipients) {
            return Err(EnqueueError::DuplicateTask);
        }
        let ghost addrs = addresses(recipients@);
        let ghost before = self@;
        let mut rows = self.take_rows();
        let mut i: usize = 0;
        assert(before + fresh_rows(issue_id, addrs.subrange(0, 0)) =~= before);
        while i < recipients.len()
            invariant
                i <= recipients.len(),
                addrs == addresses(recipients@),
                distinct_keys(before),
                can_enqueue(before, issue_id, addrs),
                rows_view(rows@) == before + fresh_rows(issue_id, addrs.subrange(0, i as int)),
            decreases recipients.len() - i,
        {
            let row = QueueRow {
                task: DeliveryTask { issue_id, recipient: recipients[i].clone() },
                holder: None,
            };
            proof {
                let grown = rows_view(rows@.push(row));
                let wanted = before + fresh_rows(issue_id, addrs.subrange(0, i + 1));
                assert(rows_view(rows@).len() == before.len() + i);
                assert forall|j: int| 0 <= j < grown.len() implies grown[j] == wanted[j] by {
                    if j < before.len() + i {
                        assert(grown[j] == rows_view(rows@)[j]);
                    }
                }
                assert(grown =~= wanted);
            }
            rows.push(row);
            i += 1;
        }
        proof {
            assert(addrs.subrange(0, i as int) =~= addrs);
            lemma_enqueue_distinct(before, issue_id, addrs, addrs.len() as int);
        }
        self.put_rows(rows);
        Ok(())
    }

    /// Locks the first row that no transaction holds for `holder` and hands
    /// its task out. Rows that are held are passed over, never waited for.
    pub fn deque_task(&mut self, holder: u64) -> (r: Option<DeliveryTask>)
        ensures
            match r {
                Some(task) => {
                    let p = first_free(old(self)@);
                    &&& 0 <= p < old(self)@.len()
                    &&& old(self)@[p].holder is None
                    &&& task@ == old(self)@[p].key
                    &&& final(self)@ == locked(old(self)@, holder)
                },
                None => {
                    &&& first_free(old(self)@) == old(self)@.len()
                    &&& forall|i: int|
                        0 <= i < old(self)@.len() ==> (#[trigger] old(self)@[i]).holder is Some
                    &&& final(self)@ == old(self)@
                },
            },
            final(self)@ == queue_apply(old(self)@, QueueOp::Lock { holder }),
            distinct_keys(final(self)@),
    {
        proof {
            use_type_invariant(&*self);
            lemma_first_free(self@);
        }
        let ghost before = self@;
        let mut i: usize = 0;
        while i < self.rows.len() && self.rows[i].holder.is_some()
            invariant
                i <= self.rows.len(),
                self@ == before,
                forall|j: int| 0 <= j < i ==> (#[trigger] before[j]).holder is Some,
            decreases self.rows.len() - i,
        {
            i += 1;
        }
        proof {
            if i < before.len() {
                assert(before[i as int].holder is None);
            }
            assert(first_free(before) == i) by {
                let p = first_free(before);
                if p < i {
                    assert(before[p].holder is Some);
                } else if p > i {
                    assert(before[i as int].holder is Some);
                }
            }
        }
        if i == self.rows.len() {
            return None;
        }
        let task = self.rows[i].task.duplicate();
        let out = self.rows[i].task.duplicate();
        let row = QueueRow { task, holder: Some(holder) };
        let mut rows = self.take_rows();
        proof {
            assert(rows_view(rows@.update(i as int, row)) =~= locked(before, holder));
            lemma_op_keeps_distinct(before, QueueOp::Lock { holder });
        }
        rows.set(i, row);
        self.put_rows(rows);
        Some(out)
    }

    /// Deletes the row of the task (`issue_id`, `recipient`) on behalf of
    /// the transaction `holder`, which must be the one that has it locked.
    pub fn delete_task(&mut self, holder: u64, issue_id: u128, recipient: &str) -> (r: Result<
        (),
        DeleteError,
    >)
        ensures
            ({
                let p = position_of(old(self)@, (issue_id, recipient@));
                match r {
                    Ok(()) => 0 <= p < old(self)@.len() && old(self)@[p].holder == Some(holder)
                        && final(self)@ == deleted(old(self)@, (issue_id, recipient@)),
                    Err(DeleteError::NoSuchTask) => p == old(self)@.len() && final(self)@ == old(
                        self,
                    )@,
                    Err(DeleteError::NotHeld) => 0 <= p < old(self)@.len() && old(self)@[p].holder
                        != Some(holder) && final(self)@ == old(self)@,
                }
            }),
            final(self)@ == queue_apply(
                old(self)@,
                QueueOp::Delete { holder, key: (issue_id, recipient@) },
            ),
            distinct_keys(final(self)@),
    {
        proof {
            use_type_invariant(&*self);
        }
        let ghost before = self@;
        let p = self.find(issue_id, recipient);
        if p == self.rows.len() {
            return Err(DeleteError::NoSuchTask);
        }
        let held = match self.rows[p].holder {
            Some(h) => h == holder,
            None => false,
        };
        if !held {
            return Err(DeleteError::NotHeld);
        }
        let mut rows = self.take_rows();
        proof {
            assert(rows_view(rows@.remove(p as int)) =~= before.remove(p as int));
            lemma_op_keeps_distinct(before, QueueOp::Delete { holder, key: (issue_id, recipient@) });
        }
        rows.remove(p);
        self.put_rows(rows);
        Ok(())
    }

    /// Ends the transaction `holder` without deleting anything: every row
    /// that it held can be picked up again.
    pub fn release(&mut self, holder: u64)
        ensures
            final(self)@ == released(old(self)@, holder),
            final(self)@ == queue_apply(old(self)@, QueueOp::Release { holder }),
            distinct_keys(final(self)@),
    {
        proof {
            use_type_invariant(&*self);
        }
        let ghost before = self@;
        let mut rows = self.take_rows();
        let mut i: usize = 0;
        while i < rows.len()
            invariant
                i <= rows.len(),
                rows@.len() == before.len(),
                distinct_keys(rows_view(rows@)),
                forall|j: int|
                    0 <= j < i ==> (#[trigger] rows_view(rows@)[j]) == released(before, holder)[j],
                forall|j: int| i <= j < before.len() ==> (#[trigger] rows_view(rows@)[j]) == before[j],
            decreases rows.len() - i,
        {
            let held = match rows[i].holder {
                Some(h) => h == holder,
                None => false,
            };
            if held {
                let task = rows[i].task.duplicate();
                let row = QueueRow { task, holder: None };
                let ghost now = rows_view(rows@);
                proof {
                    let after = now.update(i as int, Row { key: now[i as int].key, holder: None });
                    assert(rows_view(rows@.update(i as int, row)) =~= after);
                    assert forall|a: int, b: int|
                        0 <= a < after.len() && 0 <= b < after.len() && a != b implies (
                    #[trigger] after[a]).key != (#[trigger] after[b]).key by {
                        assert(after[a].key == now[a].key);
                        assert(after[b].key == now[b].key);
                    }
                }
                rows.set(i, row);
            }
            i += 1;
        }
        assert(rows_view(rows@) =~= released(before, holder));
        self.put_rows(rows);
    }
}

} // verus!
