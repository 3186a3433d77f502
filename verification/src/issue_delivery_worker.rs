//! The delivery worker: what it does with one queue row, step by step, and
//! how long it waits between polls. The worker's owner performs each action
//! (against the store, against the mailer) and reports what came of it.

use vstd::prelude::*;

use crate::delivery_queue::distinct_keys;
use crate::delivery_queue::first_free;
use crate::delivery_queue::lemma_attempt_removes_one;
use crate::delivery_queue::lemma_first_free;
use crate::delivery_queue::lemma_position_of;
use crate::delivery_queue::pending_count;
use crate::delivery_queue::position_of;
use crate::delivery_queue::queue_apply;
use crate::delivery_queue::DeliveryTask;
use crate::delivery_queue::QueueOp;
use crate::delivery_queue::Row;
use crate::domain::invalid_email_message;
use crate::domain::is_valid_email;
use crate::domain::SubscriberEmail;
use crate::newsletter_issue::NewsletterIssue;

verus! {

/// Seconds to wait before the next poll when the queue was empty.
pub const EMPTY_QUEUE_PAUSE_SECONDS: u64 = 10;

/// Seconds to wait before the next poll when the store failed.
pub const FAILURE_PAUSE_SECONDS: u64 = 1;

/// How one poll of the queue ended.
#[derive(Debug, Clone, Copy, PartialEq, Eq, Structural)]
pub enum ExecutionOutcome {
    /// No row could be locked.
    EmptyQueue,
    /// A row was locked, attempted and removed.
    TaskCompleted,
}

/// Why a poll was given up. The transaction of a poll that is given up
/// must be rolled back, which frees the row it held.
pub enum WorkerError {
    /// The store reported a failure, with this message.
    Store(String),
    /// An event came that answers no action the worker had asked for.
    UnexpectedEvent,
}

/// What became of the attempt for one task. The task is removed whichever
/// it is.
pub enum DeliveryReport {
    /// The mailer accepted the message.
    Delivered,
    /// The mailer refused the message or failed, with this message.
    SendFailed(String),
    /// The stored address is not a valid address; nothing was sent.
    InvalidRecipient(String),
}

/// A message for the mailer.
pub struct Delivery {
    pub recipient: SubscriberEmail,
    pub subject: String,
    pub html: String,
    pub text: String,
}

/// Where the worker stands within one poll.
pub enum TaskState {
    /// Nothing has been asked of the store yet.
    Start,
    /// The store was asked for a row.
    Dequeuing,
    /// The row's address is valid and the issue's content was asked for.
    LoadingIssue { task: DeliveryTask, recipient: SubscriberEmail },
    /// The mailer was asked to send.
    Sending { task: DeliveryTask },
    /// The store was asked to delete the row and commit.
    Deleting,
}

/// What the worker's owner reports.
pub enum TaskEvent {
    /// A new poll starts.
    Begin,
    /// The store locked this row, or found none to lock.
    Dequeued(Option<DeliveryTask>),
    /// The store returned the issue's content.
    IssueLoaded(NewsletterIssue),
    /// The mailer answered.
    Sent(Result<(), String>),
    /// The row is deleted and the transaction committed.
    Deleted,
    /// The store failed on the last request.
    StoreFailed(String),
}

/// What the worker asks its owner to do next.
pub enum TaskAction {
    /// Open a transaction and lock one row, skipping rows that are locked.
    Dequeue,
    /// Read the content of this issue.
    LoadIssue { issue_id: u128 },
    /// Hand this message to the mailer.
    Send(Delivery),
    /// Delete this row in the transaction that holds it, and commit.
    Delete { task: DeliveryTask, report: DeliveryReport },
}

/// The result of one step: go on, or the poll is over.
pub enum TaskStep {
    Continue { state: TaskState, action: TaskAction },
    Done(Result<ExecutionOutcome, WorkerError>),
}

/// When to poll again.
#[derive(Debug, Clone, Copy, PartialEq, Eq, Structural)]
pub enum NextPoll {
    Immediately,
    After { seconds: u64 },
}

/// The step that the worker takes in `state` on `event`.
pub open spec fn task_step(state: TaskState, event: TaskEvent, step: TaskStep) -> bool {
    match (state, event) {
        (TaskState::Start, TaskEvent::Begin) => {
            step matches TaskStep::Continue {
                state: TaskState::Dequeuing,
                action: TaskAction::Dequeue,
            }
        },
        (TaskState::Dequeuing, TaskEvent::Dequeued(None)) => {
            step matches TaskStep::Done(Ok(ExecutionOutcome::EmptyQueue))
        },
        (TaskState::Dequeuing, TaskEvent::Dequeued(Some(found))) => {
            if is_valid_email(found.recipient@) {
                &&& step matches TaskStep::Continue {
                    state: TaskState::LoadingIssue { task, recipient },
                    action: TaskAction::LoadIssue { issue_id },
                }
                &&& task@ == found@
                &&& recipient@ == found.recipient@
                &&& issue_id == found.issue_id
            } else {
                &&& step matches TaskStep::Continue {
                    state: TaskState::Deleting,
                    action: TaskAction::Delete {
                        task,
                        report: DeliveryReport::InvalidRecipient(message),
                    },
                }
                &&& task@ == found@
                &&& message@ == invalid_email_message(found.recipient@)
            }
        },
        (TaskState::LoadingIssue { task: held, recipient: to }, TaskEvent::IssueLoaded(issue)) => {
            &&& step matches TaskStep::Continue {
                state: TaskState::Sending { task },
                action: TaskAction::Send(delivery),
            }
            &&& task@ == held@
            &&& delivery.recipient@ == to@
            &&& delivery.subject@ == issue.title@
            &&& delivery.html@ == issue.html_content@
            &&& delivery.text@ == issue.text_content@
        },
        (TaskState::Sending { task: held }, TaskEvent::Sent(Ok(()))) => {
            &&& step matches TaskStep::Continue {
                state: TaskState::Deleting,
                action: TaskAction::Delete { task, report: DeliveryReport::Delivered },
            }
            &&& task@ == held@
        },
        (TaskState::Sending { task: held }, TaskEvent::Sent(Err(cause))) => {
            &&& step matches TaskStep::Continue {
                state: TaskState::Deleting,
                action: TaskAction::Delete { task, report: DeliveryReport::SendFailed(message) },
            }
            &&& task@ == held@
            &&& message@ == cause@
        },
        (TaskState::Deleting, TaskEvent::Deleted) => {
            step matches TaskStep::Done(Ok(ExecutionOutcome::TaskCompleted))
        },
        (TaskState::Start, TaskEvent::StoreFailed(_)) => {
            step matches TaskStep::Done(Err(WorkerError::UnexpectedEvent))
        },
        (_, TaskEvent::StoreFailed(cause)) => {
            &&& step matches TaskStep::Done(Err(WorkerError::Store(message)))
            &&& message@ == cause@
        },
        _ => step matches TaskStep::Done(Err(WorkerError::UnexpectedEvent)),
    }
}

/// Takes one step of a poll: from where the worker stands and what its
/// owner reports to the next action, or to the poll's result.
///
/// A row whose address is invalid is deleted without a send. A row whose
/// send failed is deleted all the same: there is one attempt per row.
/// Only a failure of the store, or an event out of turn, gives the poll up.
pub fn try_execute_task(state: TaskState, event: TaskEvent) -> (step: TaskStep)
    ensures
        task_step(state, event, step),
{
    match (state, event) {
        (TaskState::Start, TaskEvent::Begin) => TaskStep::Continue {
            state: TaskState::Dequeuing,
            action: TaskAction::Dequeue,
        },
        (TaskState::Dequeuing, TaskEvent::Dequeued(None)) => TaskStep::Done(
            Ok(ExecutionOutcome::EmptyQueue),
        ),
        (TaskState::Dequeuing, TaskEvent::Dequeued(Some(found))) => {
            let issue_id = found.issue_id;
            match SubscriberEmail::parse(found.recipient.clone()) {
                Ok(recipient) => TaskStep::Continue {
                    state: TaskState::LoadingIssue { task: found, recipient },
                    action: TaskAction::LoadIssue { issue_id },
                },
                Err(message) => TaskStep::Continue {
                    state: TaskState::Deleting,
                    action: TaskAction::Delete {
                        task: found,
                        report: DeliveryReport::InvalidRecipient(message),
                    },
                },
            }
        },
        (TaskState::LoadingIssue { task, recipient }, TaskEvent::IssueLoaded(issue)) => {
            TaskStep::Continue {
                state: TaskState::Sending { task },
                action: TaskAction::Send(
                    Delivery {
                        recipient,
                        subject: issue.title,
                        html: issue.html_content,
                        text: issue.text_content,
                    },
                ),
            }
        },
        (TaskState::Sending { task }, TaskEvent::Sent(Ok(()))) => TaskStep::Continue {
            state: TaskState::Deleting,
            action: TaskAction::Delete { task, report: DeliveryReport::Delivered },
        },
        (TaskState::Sending { task }, TaskEvent::Sent(Err(cause))) => TaskStep::Continue {
            state: TaskState::Deleting,
            action: TaskAction::Delete { task, report: DeliveryReport::SendFailed(cause) },
        },
        (TaskState::Deleting, TaskEvent::Deleted) => TaskStep::Done(
            Ok(ExecutionOutcome::TaskCompleted),
        ),
        (TaskState::Start, TaskEvent::StoreFailed(_)) => TaskStep::Done(
            Err(WorkerError::UnexpectedEvent),
        ),
        (_, TaskEvent::StoreFailed(cause)) => TaskStep::Done(Err(WorkerError::Store(cause))),
        _ => TaskStep::Done(Err(WorkerError::UnexpectedEvent)),
    }
}

/// When the worker polls again after a poll that ended in `result`.
pub open spec fn next_poll(result: Result<ExecutionOutcome, WorkerError>) -> NextPoll {
    match result {
        Ok(ExecutionOutcome::TaskCompleted) => NextPoll::Immediately,
        Ok(ExecutionOutcome::EmptyQueue) => NextPoll::After { seconds: EMPTY_QUEUE_PAUSE_SECONDS },
        Err(_) => NextPoll::After { seconds: FAILURE_PAUSE_SECONDS },
    }
}

/// Decides when to poll again: at once after a completed task, so that a
/// burst is drained; after ten seconds when the queue was empty; after one
/// second when the poll was given up. The worker never stops on an error.
pub fn worker_loop(result: &Result<ExecutionOutcome, WorkerError>) -> (next: NextPoll)
    ensures
        next == next_poll(*result),
{
    match result {
        Ok(ExecutionOutcome::TaskCompleted) => NextPoll::Immediately,
        Ok(ExecutionOutcome::EmptyQueue) => NextPoll::After { seconds: EMPTY_QUEUE_PAUSE_SECONDS },
        Err(_) => NextPoll::After { seconds: FAILURE_PAUSE_SECONDS },
    }
}


/// Once a row is locked, the poll ends with its deletion whatever the
/// mailer answers: an invalid address goes straight to deletion, a valid
/// one goes through loading and sending to deletion, with the mailer's
/// answer kept in the report. The step after the deletion completes the
/// task.
pub proof fn lemma_locked_task_is_deleted(
    found: DeliveryTask,
    issue: NewsletterIssue,
    answer: Result<(), String>,
    first: TaskStep,
    second: TaskStep,
    third: TaskStep,
    last: TaskStep,
)
    requires
        task_step(TaskState::Dequeuing, TaskEvent::Dequeued(Some(found)), first),
        first matches TaskStep::Continue { state, .. } ==> task_step(
            state,
            TaskEvent::IssueLoaded(issue),
            second,
        ),
        second matches TaskStep::Continue { state, .. } ==> task_step(
            state,
            TaskEvent::Sent(answer),
            third,
        ),
        task_step(TaskState::Deleting, TaskEvent::Deleted, last),
    ensures
        !is_valid_email(found.recipient@) ==> {
            &&& first matches TaskStep::Continue {
                state: TaskState::Deleting,
                action: TaskAction::Delete { task, report },
            }
            &&& task@ == found@
            &&& report is InvalidRecipient
        },
        is_valid_email(found.recipient@) ==> {
            &&& first matches TaskStep::Continue { action: TaskAction::LoadIssue { issue_id }, .. }
            &&& issue_id == found.issue_id
            &&& second matches TaskStep::Continue { action: TaskAction::Send(delivery), .. }
            &&& delivery.recipient@ == found.recipient@
            &&& delivery.subject@ == issue.title@
            &&& third matches TaskStep::Continue {
                state: TaskState::Deleting,
                action: TaskAction::Delete { task, report },
            }
            &&& task@ == found@
            &&& (answer is Ok ==> report is Delivered)
            &&& (answer is Err ==> report is SendFailed)
        },
        last matches TaskStep::Done(Ok(ExecutionOutcome::TaskCompleted)),
{
}

/// The queue drains by one row per completed attempt: when a worker has
/// locked the first free row and follows the steps to the deletion,
/// whether the address was invalid, the mailer accepted the message or
/// the mailer failed, the row it deletes is the row it locked, and the
/// queue is left with that one row less: the count of its issue is down
/// by one, the count of every other issue is unchanged.
pub proof fn lemma_completed_attempt_removes_its_row(
    rows: Seq<Row>,
    holder: u64,
    other: u128,
    found: DeliveryTask,
    issue: NewsletterIssue,
    answer: Result<(), String>,
    first: TaskStep,
    second: TaskStep,
    third: TaskStep,
)
    requires
        distinct_keys(rows),
        first_free(rows) < rows.len(),
        found@ == rows[first_free(rows)].key,
        task_step(TaskState::Dequeuing, TaskEvent::Dequeued(Some(found)), first),
        first matches TaskStep::Continue { state, .. } ==> task_step(
            state,
            TaskEvent::IssueLoaded(issue),
            second,
        ),
        second matches TaskStep::Continue { state, .. } ==> task_step(
            state,
            TaskEvent::Sent(answer),
            third,
        ),
    ensures
        ({
            let deleting = if is_valid_email(found.recipient@) {
                third
            } else {
                first
            };
            &&& deleting matches TaskStep::Continue { action: TaskAction::Delete { task, .. }, .. }
            &&& task@ == found@
            &&& ({
                let held = queue_apply(rows, QueueOp::Lock { holder });
                let after = queue_apply(held, QueueOp::Delete { holder, key: task@ });
                &&& after == rows.remove(first_free(rows))
                &&& pending_count(after, found.issue_id) + 1 == pending_count(rows, found.issue_id)
                &&& other != found.issue_id ==> pending_count(after, other) == pending_count(
                    rows,
                    other,
                )
            })
        }),
{
    lemma_first_free(rows);
    lemma_attempt_removes_one(rows, holder, other);
    let p = first_free(rows);
    let held = queue_apply(rows, QueueOp::Lock { holder });
    lemma_position_of(held, found@);
    assert(position_of(held, found@) == p) by {
        let q = position_of(held, found@);
        assert(held[p].key == found@);
        if q < p {
            assert(held[q].key == rows[q].key);
        }
    }
}

/// How a poll ends decides the pause before the next one. It ends with an
/// empty queue exactly when the store had no row to lock, and then the
/// pause is ten seconds; it ends with a completed task exactly on the
/// deletion, and then there is no pause; every poll that is given up,
/// the store's failures among them, is followed by a pause of one second.
pub proof fn lemma_pause_after_poll(state: TaskState, event: TaskEvent, step: TaskStep)
    requires
        task_step(state, event, step),
    ensures
        step matches TaskStep::Done(result) ==> {
            &&& result == Ok::<ExecutionOutcome, WorkerError>(ExecutionOutcome::EmptyQueue) <==> (
            state is Dequeuing && event == TaskEvent::Dequeued(None))
            &&& result == Ok::<ExecutionOutcome, WorkerError>(ExecutionOutcome::TaskCompleted)
                <==> (state is Deleting && event is Deleted)
            &&& result == Ok::<ExecutionOutcome, WorkerError>(ExecutionOutcome::EmptyQueue)
                ==> next_poll(result) == NextPoll::After { seconds: 10 }
            &&& result == Ok::<ExecutionOutcome, WorkerError>(ExecutionOutcome::TaskCompleted)
                ==> next_poll(result) == NextPoll::Immediately
            &&& result is Err ==> next_poll(result) == NextPoll::After { seconds: 1 }
            &&& (event is StoreFailed ==> result is Err)
        },
{
}

} // verus!
