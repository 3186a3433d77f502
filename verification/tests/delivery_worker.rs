use zero2prod::delivery_queue::DeliveryQueue;
use zero2prod::delivery_queue::DeliveryTask;
use zero2prod::domain::SubscriberEmail;
use zero2prod::email_client::SendEmailRequest;
use zero2prod::issue_delivery_worker::try_execute_task;
use zero2prod::issue_delivery_worker::worker_loop;
use zero2prod::issue_delivery_worker::DeliveryReport;
use zero2prod::issue_delivery_worker::ExecutionOutcome;
use zero2prod::issue_delivery_worker::NextPoll;
use zero2prod::issue_delivery_worker::TaskAction;
use zero2prod::issue_delivery_worker::TaskEvent;
use zero2prod::issue_delivery_worker::TaskState;
use zero2prod::issue_delivery_worker::TaskStep;
use zero2prod::issue_delivery_worker::WorkerError;
use zero2prod::newsletter_issue::IssueStore;
use zero2prod::newsletter_issue::NewsletterIssue;
use zero2prod::routes::admin::newsletter::publish;

struct Pass {
    delivered: Vec<String>,
    failed: Vec<String>,
    invalid: Vec<String>,
    sent_subjects: Vec<String>,
    result: Result<ExecutionOutcome, WorkerError>,
}

fn poll(queue: &mut DeliveryQueue, issues: &IssueStore, holder: u64, refused: &[&str], pass: &mut Pass) {
    let mut step = try_execute_task(TaskState::Start, TaskEvent::Begin);
    loop {
        let (state, action) = match step {
            TaskStep::Done(result) => {
                if result.is_err() {
                    queue.release(holder);
                }
                pass.result = result;
                return;
            }
            TaskStep::Continue { state, action } => (state, action),
        };
        let event = match action {
            TaskAction::Dequeue => TaskEvent::Dequeued(queue.deque_task(holder)),
            TaskAction::LoadIssue { issue_id } => match issues.get_issue(issue_id) {
                Some(issue) => TaskEvent::IssueLoaded(issue),
                None => TaskEvent::StoreFailed("no such issue".to_string()),
            },
            TaskAction::Send(delivery) => {
                pass.sent_subjects.push(delivery.subject.clone());
                if refused.contains(&delivery.recipient.as_str()) {
                    TaskEvent::Sent(Err("refused".to_string()))
                } else {
                    TaskEvent::Sent(Ok(()))
                }
            }
            TaskAction::Delete { task, report } => {
                match report {
                    DeliveryReport::Delivered => pass.delivered.push(task.recipient.clone()),
                    DeliveryReport::SendFailed(_) => pass.failed.push(task.recipient.clone()),
                    DeliveryReport::InvalidRecipient(_) => pass.invalid.push(task.recipient.clone()),
                }
                match queue.delete_task(holder, task.issue_id, &task.recipient) {
                    Ok(()) => TaskEvent::Deleted,
                    Err(_) => TaskEvent::StoreFailed("delete failed".to_string()),
                }
            }
        };
        step = try_execute_task(state, event);
    }
}

fn drain(queue: &mut DeliveryQueue, issues: &IssueStore, refused: &[&str]) -> Pass {
    let mut pass = Pass {
        delivered: Vec::new(),
        failed: Vec::new(),
        invalid: Vec::new(),
        sent_subjects: Vec::new(),
        result: Ok(ExecutionOutcome::TaskCompleted),
    };
    let mut polls = 0;
    loop {
        poll(queue, issues, 1, refused, &mut pass);
        polls += 1;
        assert!(polls < 100);
        if !matches!(worker_loop(&pass.result), NextPoll::Immediately) {
            return pass;
        }
    }
}

fn recipients(list: &[&str]) -> Vec<String> {
    list.iter().map(|s| s.to_string()).collect()
}

#[test]
fn one_pass_attempts_every_recipient_once_and_empties_the_queue() {
    let mut issues = IssueStore::new();
    let mut queue = DeliveryQueue::new();
    let id = publish(&mut issues, &mut queue, 1, "I1", "<p>hi</p>", "hi", &recipients(&["a@x.com", "b@x.com"]));
    assert_eq!(id.ok(), Some(1));
    assert_eq!(queue.pending_for(1), 2);
    let pass = drain(&mut queue, &issues, &["b@x.com"]);
    assert_eq!(queue.pending_for(1), 0);
    assert_eq!(pass.delivered, vec!["a@x.com".to_string()]);
    assert_eq!(pass.failed, vec!["b@x.com".to_string()]);
    assert!(pass.invalid.is_empty());
    assert_eq!(pass.sent_subjects, vec!["I1".to_string(), "I1".to_string()]);
    assert!(matches!(pass.result, Ok(ExecutionOutcome::EmptyQueue)));
}

#[test]
fn invalid_stored_address_is_removed_without_a_send() {
    let mut issues = IssueStore::new();
    let mut queue = DeliveryQueue::new();
    let _ = publish(&mut issues, &mut queue, 1, "I1", "h", "t", &recipients(&["not-an-address", "a@x.com"]));
    let pass = drain(&mut queue, &issues, &[]);
    assert_eq!(pass.invalid, vec!["not-an-address".to_string()]);
    assert_eq!(pass.delivered, vec!["a@x.com".to_string()]);
    assert_eq!(pass.sent_subjects.len(), 1);
    assert_eq!(queue.len(), 0);
}

#[test]
fn store_failure_gives_the_poll_up_and_keeps_the_row() {
    let issues = IssueStore::new();
    let mut queue = DeliveryQueue::new();
    let _ = queue.enqueue(9, &recipients(&["a@x.com"]));
    let pass = drain(&mut queue, &issues, &[]);
    assert!(matches!(pass.result, Err(WorkerError::Store(_))));
    assert_eq!(queue.pending_for(9), 1);
    assert!(queue.deque_task(2).is_some());
}

#[test]
fn pauses_between_polls() {
    assert_eq!(worker_loop(&Ok(ExecutionOutcome::TaskCompleted)), NextPoll::Immediately);
    assert_eq!(worker_loop(&Ok(ExecutionOutcome::EmptyQueue)), NextPoll::After { seconds: 10 });
    assert_eq!(worker_loop(&Err(WorkerError::Store("down".to_string()))), NextPoll::After { seconds: 1 });
    assert_eq!(worker_loop(&Err(WorkerError::UnexpectedEvent)), NextPoll::After { seconds: 1 });
}

#[test]
fn steps_of_a_poll() {
    let step = try_execute_task(TaskState::Start, TaskEvent::Begin);
    assert!(matches!(step, TaskStep::Continue { state: TaskState::Dequeuing, action: TaskAction::Dequeue }));
    let step = try_execute_task(TaskState::Dequeuing, TaskEvent::Dequeued(None));
    assert!(matches!(step, TaskStep::Done(Ok(ExecutionOutcome::EmptyQueue))));
    let task = DeliveryTask { issue_id: 4, recipient: "a@x.com".to_string() };
    let step = try_execute_task(TaskState::Dequeuing, TaskEvent::Dequeued(Some(task)));
    let state = match step {
        TaskStep::Continue { state, action: TaskAction::LoadIssue { issue_id: 4 } } => state,
        _ => panic!("the issue was not asked for"),
    };
    let issue = NewsletterIssue { title: "T".to_string(), html_content: "H".to_string(), text_content: "X".to_string() };
    let step = try_execute_task(state, TaskEvent::IssueLoaded(issue));
    let state = match step {
        TaskStep::Continue { state, action: TaskAction::Send(delivery) } => {
            assert_eq!(delivery.recipient.as_str(), "a@x.com");
            assert_eq!((delivery.subject.as_str(), delivery.html.as_str(), delivery.text.as_str()), ("T", "H", "X"));
            let sender = SubscriberEmail::parse("news@x.com".to_string()).ok().unwrap();
            let request = SendEmailRequest::new(&sender, &delivery);
            assert_eq!((request.from, request.to, request.subject), ("news@x.com", "a@x.com", "T"));
            assert_eq!((request.html_body, request.text_body), ("H", "X"));
            state
        }
        _ => panic!("nothing was sent"),
    };
    let step = try_execute_task(state, TaskEvent::Sent(Err("boom".to_string())));
    match step {
        TaskStep::Continue { state: TaskState::Deleting, action: TaskAction::Delete { task, report } } => {
            assert_eq!((task.issue_id, task.recipient.as_str()), (4, "a@x.com"));
            assert!(matches!(report, DeliveryReport::SendFailed(ref m) if m == "boom"));
        }
        _ => panic!("the row was not deleted"),
    }
    let step = try_execute_task(TaskState::Deleting, TaskEvent::Deleted);
    assert!(matches!(step, TaskStep::Done(Ok(ExecutionOutcome::TaskCompleted))));
}

#[test]
fn events_out_of_turn_give_the_poll_up() {
    let step = try_execute_task(TaskState::Start, TaskEvent::Deleted);
    assert!(matches!(step, TaskStep::Done(Err(WorkerError::UnexpectedEvent))));
    let step = try_execute_task(TaskState::Start, TaskEvent::StoreFailed("x".to_string()));
    assert!(matches!(step, TaskStep::Done(Err(WorkerError::UnexpectedEvent))));
    let step = try_execute_task(TaskState::Deleting, TaskEvent::Sent(Ok(())));
    assert!(matches!(step, TaskStep::Done(Err(WorkerError::UnexpectedEvent))));
    let step = try_execute_task(TaskState::Dequeuing, TaskEvent::StoreFailed("down".to_string()));
    assert!(matches!(step, TaskStep::Done(Err(WorkerError::Store(ref m))) if m == "down"));
    let step = try_execute_task(TaskState::Deleting, TaskEvent::StoreFailed("down".to_string()));
    assert!(matches!(step, TaskStep::Done(Err(WorkerError::Store(_)))));
}
