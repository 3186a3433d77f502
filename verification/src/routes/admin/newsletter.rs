//! Publishing an issue from the administrator's form: the idempotency
//! guard first, then the issue and one delivery task per recipient, all
//! or nothing, then the saved response.

use vstd::prelude::*;
use vstd::string::StrSliceExecFns;
use vstd::string::StringExecFns;
use vstd::utf8::encode_utf8;

use crate::delivery_queue::addresses;
use crate::delivery_queue::can_enqueue;
use crate::delivery_queue::fresh_rows;
use crate::delivery_queue::DeliveryQueue;
use crate::delivery_queue::Row;
use crate::idempotency::key::key_verdict;
use crate::idempotency::key::KeyError;
use crate::idempotency::persistence::after_claim;
use crate::idempotency::persistence::after_rollback;
use crate::idempotency::persistence::after_save;
use crate::idempotency::persistence::claim_of;
use crate::idempotency::persistence::Claim;
use crate::idempotency::persistence::Record;
use crate::idempotency::response::HeaderContent;
use crate::idempotency::response::HeaderPair;
use crate::idempotency::response::ResponseContent;
use crate::idempotency::GuardError;
use crate::idempotency::IdempotencyKey;
use crate::idempotency::IdempotencyStore;
use crate::idempotency::NextAction;
use crate::idempotency::SavedResponse;
use crate::newsletter_issue::IssueContent;
use crate::newsletter_issue::IssueStore;

verus! {

/// The fields of the form.
pub struct FormData {
    pub html_content: String,
    pub idempotency_key: String,
    pub text_content: String,
    pub title: String,
}

/// Why publishing failed on the server's side.
pub enum PublishError {
    UnexpectedError(String),
}

/// Why a publish request was not carried out.
pub enum PublishRejection {
    /// The idempotency key is malformed: a client error.
    InvalidKey(KeyError),
    /// Another request with the same key is being processed by this
    /// transaction: the caller waits for its end and asks again.
    InProgress { holder: u64 },
    /// The store failed: a server error. Nothing of the request is kept.
    Failed(PublishError),
}

impl PublishError {
    /// The status code that answers this error.
    pub fn status_code(&self) -> (code: u16)
        ensures
            code == 500,
    {
        500
    }
}

/// Where the caller is sent after publishing.
pub open spec fn newsletter_page() -> Seq<char> {
    "/admin/newsletter"@
}

/// A redirection to `location`: status 303, a `location` header, no body.
pub open spec fn see_other_content(location: Seq<char>) -> ResponseContent {
    ResponseContent {
        status_code: 303,
        headers: seq![HeaderContent { name: "location"@, value: encode_utf8(location) }],
        body: Seq::empty(),
    }
}

/// A redirection to `location`.
pub fn see_other(location: &str) -> (response: SavedResponse)
    ensures
        response@ == see_other_content(location@),
{
    let mut headers: Vec<HeaderPair> = Vec::new();
    headers.push(HeaderPair { name: String::from_str("location"), value: location.as_bytes_vec() });
    let response = SavedResponse::from_parts(303, headers, Vec::new());
    assert(response@.headers =~= see_other_content(location@).headers);
    response
}

/// What the caller is told when the issue was accepted.
pub fn success_message() -> (message: &'static str)
    ensures
        message@ == "The newsletter issue has been accepted - emails will go out shortly."@,
{
    "The newsletter issue has been accepted - emails will go out shortly."
}

/// Whether the issue `issue_id` can be published to `recipients`: the
/// identifier is free and the batch of tasks can be enqueued.
pub open spec fn can_publish(
    issues: Map<u128, IssueContent>,
    queue: Seq<Row>,
    issue_id: u128,
    recipients: Seq<Seq<char>>,
) -> bool {
    !issues.contains_key(issue_id) && can_enqueue(queue, issue_id, recipients)
}

/// Stores the issue and enqueues one delivery task per recipient, or
/// does neither: an identifier that is taken, or a batch that cannot be
/// enqueued, leaves both stores as they were.
pub fn publish(
    issues: &mut IssueStore,
    queue: &mut DeliveryQueue,
    issue_id: u128,
    title: &str,
    html: &str,
    text: &str,
    recipients: &Vec<String>,
) -> (r: Result<u128, PublishError>)
    ensures
        match r {
            Ok(id) => {
                &&& id == issue_id
                &&& can_publish(old(issues)@, old(queue)@, issue_id, addresses(recipients@))
                &&& final(issues)@ == old(issues)@.insert(
                    issue_id,
                    IssueContent { title: title@, html_content: html@, text_content: text@ },
                )
                &&& final(queue)@ == old(queue)@ + fresh_rows(issue_id, addresses(recipients@))
            },
            Err(PublishError::UnexpectedError(message)) => {
                &&& !can_publish(old(issues)@, old(queue)@, issue_id, addresses(recipients@))
                &&& final(issues)@ == old(issues)@
                &&& final(queue)@ == old(queue)@
                &&& message@ == if old(issues)@.contains_key(issue_id) {
                    "Failed to store newsletter issue details"@
                } else {
                    "Failed to enqueue delivery tasks"@
                }
            },
        },
{
    if issues.get_issue(issue_id).is_some() {
        return Err(
            PublishError::UnexpectedError(
                String::from_str("Failed to store newsletter issue details"),
            ),
        );
    }
    if !queue.accepts(issue_id, recipients) {
        return Err(
            PublishError::UnexpectedError(String::from_str("Failed to enqueue delivery tasks")),
        );
    }
    let _ = issues.insert_newsletter_issue(issue_id, title, text, html);
    let _ = queue.enqueue(issue_id, recipients);
    Ok(issue_id)
}

/// What a publish request does: to the three stores, and to the caller.
pub open spec fn publish_outcome(
    form: FormData,
    user_id: u128,
    txn: u64,
    issue_id: u128,
    recipients: Seq<Seq<char>>,
    records: Seq<Record>,
    issues: Map<u128, IssueContent>,
    queue: Seq<Row>,
    records_after: Seq<Record>,
    issues_after: Map<u128, IssueContent>,
    queue_after: Seq<Row>,
    r: Result<SavedResponse, PublishRejection>,
) -> bool {
    match key_verdict(form.idempotency_key@) {
        Some(e) => {
            &&& r matches Err(PublishRejection::InvalidKey(got))
            &&& got == e
            &&& records_after == records
            &&& issues_after == issues
            &&& queue_after == queue
        },
        None => match claim_of(records, user_id, form.idempotency_key@) {
            Claim::Locked(h) => {
                &&& r matches Err(PublishRejection::InProgress { holder })
                &&& holder == h
                &&& records_after == records
                &&& issues_after == issues
                &&& queue_after == queue
            },
            Claim::Saved(response) => {
                &&& r matches Ok(saved)
                &&& saved@ == response
                &&& records_after == records
                &&& issues_after == issues
                &&& queue_after == queue
            },
            Claim::Missing => {
                &&& r matches Err(PublishRejection::Failed(_))
                &&& records_after == records
                &&& issues_after == issues
                &&& queue_after == queue
            },
            Claim::Granted => {
                let claimed = after_claim(
                    records,
                    txn,
                    user_id,
                    form.idempotency_key@,
                );
                if can_publish(issues, queue, issue_id, recipients) {
                    &&& r matches Ok(response)
                    &&& response@ == see_other_content(newsletter_page())
                    &&& records_after == after_save(
                        claimed,
                        txn,
                        user_id,
                        form.idempotency_key@,
                        see_other_content(newsletter_page()),
                    )
                    &&& issues_after == issues.insert(
                        issue_id,
                        IssueContent {
                            title: form.title@,
                            html_content: form.html_content@,
                            text_content: form.text_content@,
                        },
                    )
                    &&& queue_after == queue + fresh_rows(
                        issue_id,
                        recipients,
                    )
                } else {
                    &&& r matches Err(PublishRejection::Failed(_))
                    &&& records_after == after_rollback(claimed, txn)
                    &&& issues_after == issues
                    &&& queue_after == queue
                }
            },
        },
    }
}

/// `uuid::Uuid::new_v4`, as a number: a random identifier, of which
/// nothing is claimed.
#[verifier::external_body]
fn new_issue_id() -> (id: u128) {
    uuid::Uuid::new_v4().as_u128()
}

/// Handles a publish request for which the identifier of the new issue
/// has been drawn already.
///
/// A malformed key is refused before any store is touched. Otherwise
/// the pair of caller and key is claimed for `txn`. A pair that was
/// processed before answers with its saved response, and nothing is
/// published again. A pair that another transaction is processing makes
/// the caller wait. A granted claim publishes the issue to `recipients`,
/// saves the redirection as the response and commits; if publishing
/// fails, `txn` is rolled back, so that nothing of the request is kept
/// and the pair can be claimed again.
pub fn publish_newsletter_with_id(
    form: FormData,
    idempotency: &mut IdempotencyStore,
    issues: &mut IssueStore,
    queue: &mut DeliveryQueue,
    user_id: u128,
    txn: u64,
    issue_id: u128,
    recipients: &Vec<String>,
) -> (r: Result<SavedResponse, PublishRejection>)
    ensures
        publish_outcome(
            form,
            user_id,
            txn,
            issue_id,
            addresses(recipients@),
            old(idempotency)@,
            old(issues)@,
            old(queue)@,
            final(idempotency)@,
            final(issues)@,
            final(queue)@,
            r,
        ),
{
    let FormData { html_content, idempotency_key, text_content, title } = form;
    let key = match IdempotencyKey::try_from(idempotency_key) {
        Ok(key) => key,
        Err(e) => { return Err(PublishRejection::InvalidKey(e)); },
    };
    match idempotency.try_processing(txn, &key, user_id) {
        Ok(NextAction::StartProcessing(_)) => {},
        Ok(NextAction::ReturnSavedResponse(saved)) => { return Ok(saved); },
        Err(GuardError::Locked { holder }) => {
            return Err(PublishRejection::InProgress { holder });
        },
        Err(_) => {
            return Err(
                PublishRejection::Failed(
                    PublishError::UnexpectedError(
                        String::from_str("We expected a saved response, we didn't find it"),
                    ),
                ),
            );
        },
    }
    match publish(
        issues,
        queue,
        issue_id,
        title.as_str(),
        html_content.as_str(),
        text_content.as_str(),
        recipients,
    ) {
        Ok(_) => {},
        Err(e) => {
            idempotency.rollback(txn);
            return Err(PublishRejection::Failed(e));
        },
    }
    let response = see_other("/admin/newsletter");
    proof {
        let before = old(idempotency)@;
        crate::idempotency::persistence::lemma_record_position(before, user_id, key@);
        let claimed = after_claim(before, txn, user_id, key@);
        let n = before.len() as int;
        assert(claimed[n].owner == user_id && claimed[n].key == key@);
        crate::idempotency::persistence::lemma_position_unique(claimed, n);
    }
    match idempotency.save_response(txn, &key, user_id, response) {
        Ok(response) => Ok(response),
        Err(_) => Err(
            PublishRejection::Failed(
                PublishError::UnexpectedError(String::from_str("Failed to save the response")),
            ),
        ),
    }
}

/// Handles a publish request: draws a fresh identifier for the issue and
/// proceeds as `publish_newsletter_with_id` does with it.
pub fn publish_newsletter(
    form: FormData,
    idempotency: &mut IdempotencyStore,
    issues: &mut IssueStore,
    queue: &mut DeliveryQueue,
    user_id: u128,
    txn: u64,
    recipients: &Vec<String>,
) -> (r: Result<SavedResponse, PublishRejection>)
    ensures
        exists|issue_id: u128|
            publish_outcome(
                form,
                user_id,
                txn,
                issue_id,
                addresses(recipients@),
                old(idempotency)@,
                old(issues)@,
                old(queue)@,
                final(idempotency)@,
                final(issues)@,
                final(queue)@,
                r,
            ),
{
    let issue_id = new_issue_id();
    publish_newsletter_with_id(form, idempotency, issues, queue, user_id, txn, issue_id, recipients)
}

/// The flash messages as HTML, one paragraph and one line each.
pub open spec fn flash_html(messages: Seq<String>) -> Seq<char>
    decreases messages.len(),
{
    if messages.len() == 0 {
        Seq::empty()
    } else {
        flash_html(messages.drop_last()) + "<p><i>"@ + messages.last()@ + "</i></p>\n"@
    }
}

/// Renders the flash messages for the publish form.
pub fn render_flash_messages(messages: &Vec<String>) -> (html: String)
    ensures
        html@ == flash_html(messages@),
{
    let mut html = String::new();
    let mut i: usize = 0;
    assert(messages@.subrange(0, 0) =~= Seq::<String>::empty());
    while i < messages.len()
        invariant
            i <= messages.len(),
            html@ == flash_html(messages@.subrange(0, i as int)),
        decreases messages.len() - i,
    {
        proof {
            let next = messages@.subrange(0, i + 1);
            assert(next.drop_last() =~= messages@.subrange(0, i as int));
            assert(next.last() == messages@[i as int]);
        }
        html = html.concat("<p><i>").concat(messages[i].as_str()).concat("</i></p>\n");
        i += 1;
    }
    assert(messages@.subrange(0, i as int) =~= messages@);
    html
}

} // verus!
