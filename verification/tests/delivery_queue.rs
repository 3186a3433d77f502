use zero2prod::delivery_queue::DeleteError;
use zero2prod::delivery_queue::DeliveryQueue;
use zero2prod::delivery_queue::EnqueueError;
use zero2prod::newsletter_issue::IssueError;
use zero2prod::newsletter_issue::IssueStore;
use zero2prod::text::str_eq;

fn recipients(list: &[&str]) -> Vec<String> {
    list.iter().map(|s| s.to_string()).collect()
}

#[test]
fn enqueue_adds_one_row_per_recipient() {
    let mut queue = DeliveryQueue::new();
    assert_eq!(queue.enqueue(1, &recipients(&["a@x.com", "b@x.com"])), Ok(()));
    assert_eq!(queue.enqueue(2, &recipients(&["a@x.com"])), Ok(()));
    assert_eq!(queue.len(), 3);
    assert_eq!(queue.pending_for(1), 2);
    assert_eq!(queue.pending_for(2), 1);
    assert_eq!(queue.pending_for(3), 0);
    assert!(queue.contains(1, "b@x.com"));
    assert!(!queue.contains(2, "b@x.com"));
}

#[test]
fn enqueue_is_all_or_nothing() {
    let mut queue = DeliveryQueue::new();
    assert_eq!(queue.enqueue(1, &recipients(&["a@x.com"])), Ok(()));
    assert_eq!(queue.enqueue(1, &recipients(&["c@x.com", "a@x.com"])), Err(EnqueueError::DuplicateTask));
    assert_eq!(queue.enqueue(1, &recipients(&["d@x.com", "d@x.com"])), Err(EnqueueError::DuplicateTask));
    assert_eq!(queue.len(), 1);
    assert!(!queue.contains(1, "c@x.com"));
    assert!(!queue.accepts(1, &recipients(&["a@x.com"])));
    assert!(queue.accepts(2, &recipients(&["a@x.com"])));
    assert_eq!(queue.enqueue(1, &recipients(&[])), Ok(()));
    assert_eq!(queue.len(), 1);
}

#[test]
fn dequeue_skips_locked_rows() {
    let mut queue = DeliveryQueue::new();
    let _ = queue.enqueue(1, &recipients(&["a@x.com", "b@x.com"]));
    let first = queue.deque_task(10).unwrap();
    let second = queue.deque_task(11).unwrap();
    assert_eq!((first.issue_id, first.recipient.as_str()), (1, "a@x.com"));
    assert_eq!((second.issue_id, second.recipient.as_str()), (1, "b@x.com"));
    assert!(queue.deque_task(12).is_none());
    assert_eq!(queue.len(), 2);
}

#[test]
fn delete_needs_the_lock() {
    let mut queue = DeliveryQueue::new();
    let _ = queue.enqueue(1, &recipients(&["a@x.com"]));
    assert_eq!(queue.delete_task(10, 1, "a@x.com"), Err(DeleteError::NotHeld));
    let _ = queue.deque_task(10);
    assert_eq!(queue.delete_task(11, 1, "a@x.com"), Err(DeleteError::NotHeld));
    assert_eq!(queue.delete_task(10, 1, "z@x.com"), Err(DeleteError::NoSuchTask));
    assert_eq!(queue.delete_task(10, 1, "a@x.com"), Ok(()));
    assert_eq!(queue.delete_task(10, 1, "a@x.com"), Err(DeleteError::NoSuchTask));
    assert_eq!(queue.len(), 0);
}

#[test]
fn count_goes_down_by_one_per_completed_attempt() {
    let mut queue = DeliveryQueue::new();
    let _ = queue.enqueue(5, &recipients(&["a@x.com", "b@x.com", "c@x.com"]));
    let _ = queue.enqueue(6, &recipients(&["a@x.com"]));
    let mut expected = 3;
    while let Some(task) = queue.deque_task(1) {
        if task.issue_id != 5 {
            queue.release(1);
            break;
        }
        assert_eq!(queue.delete_task(1, task.issue_id, &task.recipient), Ok(()));
        expected -= 1;
        assert_eq!(queue.pending_for(5), expected);
        assert_eq!(queue.pending_for(6), 1);
    }
    assert_eq!(queue.pending_for(5), 0);
}

#[test]
fn released_row_is_picked_up_again() {
    let mut queue = DeliveryQueue::new();
    let _ = queue.enqueue(1, &recipients(&["a@x.com", "b@x.com"]));
    let first = queue.deque_task(10).unwrap();
    let _ = queue.deque_task(11).unwrap();
    queue.release(10);
    let again = queue.deque_task(12).unwrap();
    assert_eq!(again.recipient, first.recipient);
    assert!(queue.deque_task(13).is_none());
    assert_eq!(queue.len(), 2);
}

#[test]
fn workers_never_share_a_task() {
    let mut queue = DeliveryQueue::new();
    let all = recipients(&["a@x.com", "b@x.com", "c@x.com", "d@x.com", "e@x.com"]);
    let _ = queue.enqueue(1, &all);
    let mut taken: Vec<String> = Vec::new();
    let mut held: Vec<(u64, String)> = Vec::new();
    let mut worker = 0u64;
    loop {
        worker = worker % 3 + 1;
        match queue.deque_task(worker) {
            Some(task) => {
                assert!(!taken.contains(&task.recipient));
                taken.push(task.recipient.clone());
                held.push((worker, task.recipient));
            }
            None => {
                if held.is_empty() {
                    break;
                }
                for (w, recipient) in held.drain(..) {
                    assert_eq!(queue.delete_task(w, 1, &recipient), Ok(()));
                }
            }
        }
    }
    taken.sort();
    assert_eq!(taken, all);
    assert_eq!(queue.len(), 0);
}

#[test]
fn strings_compare_by_their_characters() {
    assert!(str_eq("", ""));
    assert!(str_eq("a@x.com", "a@x.com"));
    assert!(!str_eq("a@x.com", "a@x.co"));
    assert!(!str_eq("a@x.com", "b@x.com"));
}

#[test]
fn issues_are_stored_once() {
    let mut issues = IssueStore::new();
    assert_eq!(issues.insert_newsletter_issue(1, "Title", "text", "<p>html</p>"), Ok(()));
    assert_eq!(issues.insert_newsletter_issue(1, "Other", "t", "h"), Err(IssueError::DuplicateId));
    assert_eq!(issues.len(), 1);
    let issue = issues.get_issue(1).unwrap();
    assert_eq!(issue.title, "Title");
    assert_eq!(issue.text_content, "text");
    assert_eq!(issue.html_content, "<p>html</p>");
    assert!(issues.get_issue(2).is_none());
}
