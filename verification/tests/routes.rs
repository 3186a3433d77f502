use zero2prod::authentication::AuthError;
use zero2prod::delivery_queue::DeliveryQueue;
use zero2prod::idempotency::key::KeyError;
use zero2prod::idempotency::persistence::IdempotencyStore;
use zero2prod::idempotency::persistence::NextAction;
use zero2prod::idempotency::IdempotencyKey;
use zero2prod::idempotency::SavedResponse;
use zero2prod::newsletter_issue::IssueStore;
use zero2prod::routes::admin::newsletter::publish;
use zero2prod::routes::admin::newsletter::publish_newsletter;
use zero2prod::routes::admin::newsletter::publish_newsletter_with_id;
use zero2prod::routes::admin::newsletter::render_flash_messages;
use zero2prod::routes::admin::newsletter::see_other;
use zero2prod::routes::admin::newsletter::success_message;
use zero2prod::routes::admin::newsletter::FormData;
use zero2prod::routes::admin::newsletter::PublishRejection;
use zero2prod::routes::admin::password::change_password;
use zero2prod::routes::admin::password::check_new_password;
use zero2prod::routes::admin::password::AfterValidation;
use zero2prod::routes::admin::password::PasswordNotice;
use zero2prod::routes::login::login;
use zero2prod::routes::login::signed_location;
use zero2prod::routes::login::LoginError;
use zero2prod::routes::newsletter::basic_authentication;
use zero2prod::routes::newsletter::get_confirmed_subscribers;
use zero2prod::routes::newsletter::send_failure;
use zero2prod::routes::newsletter::split_credentials;
use zero2prod::routes::newsletter::BasicAuthError;
use zero2prod::routes::newsletter::BodyData;
use zero2prod::routes::newsletter::Content;
use zero2prod::routes::newsletter::PublishError;
use zero2prod::domain::SubscriberEmail;

fn form(key: &str) -> FormData {
    FormData {
        html_content: "<p>hello</p>".to_string(),
        idempotency_key: key.to_string(),
        text_content: "hello".to_string(),
        title: "I1".to_string(),
    }
}

fn recipients(list: &[&str]) -> Vec<String> {
    list.iter().map(|s| s.to_string()).collect()
}

fn is_redirect_to_newsletter(response: &SavedResponse) -> bool {
    response.status_code() == 303
        && response.body().is_empty()
        && response.headers().len() == 1
        && response.headers()[0].name == "location"
        && response.headers()[0].value == b"/admin/newsletter"
}

#[test]
fn publishing_stores_the_issue_and_enqueues_every_recipient() {
    let (mut idempotency, mut issues, mut queue) = (IdempotencyStore::new(), IssueStore::new(), DeliveryQueue::new());
    let list = recipients(&["a@x.com", "b@x.com"]);
    let response = publish_newsletter_with_id(form("K1"), &mut idempotency, &mut issues, &mut queue, 7, 1, 42, &list);
    assert!(is_redirect_to_newsletter(&response.ok().unwrap()));
    assert_eq!(queue.pending_for(42), 2);
    assert_eq!(issues.get_issue(42).unwrap().title, "I1");
    assert_eq!(idempotency.len(), 1);
}

#[test]
fn retry_with_the_same_key_publishes_nothing_again() {
    let (mut idempotency, mut issues, mut queue) = (IdempotencyStore::new(), IssueStore::new(), DeliveryQueue::new());
    let list = recipients(&["a@x.com", "b@x.com"]);
    let first = publish_newsletter_with_id(form("K1"), &mut idempotency, &mut issues, &mut queue, 7, 1, 42, &list).ok().unwrap();
    let second = publish_newsletter_with_id(form("K1"), &mut idempotency, &mut issues, &mut queue, 7, 2, 43, &list).ok().unwrap();
    assert_eq!(first.status_code(), second.status_code());
    assert_eq!(first.body(), second.body());
    assert_eq!(first.headers()[0].value, second.headers()[0].value);
    assert_eq!(issues.len(), 1);
    assert_eq!(queue.len(), 2);
    assert!(issues.get_issue(43).is_none());
}

#[test]
fn retry_while_first_attempt_is_open_waits_then_gets_the_first_response() {
    let (mut idempotency, mut issues, mut queue) = (IdempotencyStore::new(), IssueStore::new(), DeliveryQueue::new());
    let list = recipients(&["a@x.com"]);
    let key = IdempotencyKey::try_from("K1".to_string()).ok().unwrap();
    assert!(matches!(idempotency.try_processing(1, &key, 7), Ok(NextAction::StartProcessing(1))));
    let blocked = publish_newsletter_with_id(form("K1"), &mut idempotency, &mut issues, &mut queue, 7, 2, 43, &list);
    assert!(matches!(blocked, Err(PublishRejection::InProgress { holder: 1 })));
    assert_eq!(issues.len(), 0);
    assert_eq!(publish(&mut issues, &mut queue, 42, "I1", "<p>hello</p>", "hello", &list).ok(), Some(42));
    let first = idempotency.save_response(1, &key, 7, see_other("/admin/newsletter")).ok().unwrap();
    let second = publish_newsletter_with_id(form("K1"), &mut idempotency, &mut issues, &mut queue, 7, 2, 43, &list).ok().unwrap();
    assert!(is_redirect_to_newsletter(&first));
    assert!(is_redirect_to_newsletter(&second));
    assert_eq!(issues.len(), 1);
    assert_eq!(queue.len(), 1);
}

#[test]
fn malformed_key_is_refused_before_any_store_is_touched() {
    let (mut idempotency, mut issues, mut queue) = (IdempotencyStore::new(), IssueStore::new(), DeliveryQueue::new());
    let list = recipients(&["a@x.com"]);
    let refused = publish_newsletter(form(""), &mut idempotency, &mut issues, &mut queue, 7, 1, &list);
    assert!(matches!(refused, Err(PublishRejection::InvalidKey(KeyError::Empty))));
    let refused = publish_newsletter(form("no spaces"), &mut idempotency, &mut issues, &mut queue, 7, 1, &list);
    assert!(matches!(refused, Err(PublishRejection::InvalidKey(KeyError::InvalidCharacter))));
    assert_eq!((idempotency.len(), issues.len(), queue.len()), (0, 0, 0));
}

#[test]
fn failed_publishing_keeps_nothing_and_frees_the_key() {
    let (mut idempotency, mut issues, mut queue) = (IdempotencyStore::new(), IssueStore::new(), DeliveryQueue::new());
    let twice = recipients(&["a@x.com", "a@x.com"]);
    let failed = publish_newsletter_with_id(form("K1"), &mut idempotency, &mut issues, &mut queue, 7, 1, 42, &twice);
    match failed {
        Err(PublishRejection::Failed(e)) => assert_eq!(e.status_code(), 500),
        _ => panic!("publishing did not fail"),
    }
    assert_eq!((idempotency.len(), issues.len(), queue.len()), (0, 0, 0));
    let once = recipients(&["a@x.com"]);
    assert!(publish_newsletter(form("K1"), &mut idempotency, &mut issues, &mut queue, 7, 2, &once).is_ok());
    assert_eq!((idempotency.len(), issues.len(), queue.len()), (1, 1, 1));
}

#[test]
fn taken_issue_identifier_is_refused() {
    let (mut issues, mut queue) = (IssueStore::new(), DeliveryQueue::new());
    let list = recipients(&["a@x.com"]);
    assert!(publish(&mut issues, &mut queue, 1, "T", "h", "t", &list).is_ok());
    match publish(&mut issues, &mut queue, 1, "T2", "h", "t", &recipients(&["b@x.com"])) {
        Err(zero2prod::routes::admin::newsletter::PublishError::UnexpectedError(m)) => {
            assert_eq!(m, "Failed to store newsletter issue details")
        }
        _ => panic!("the identifier was accepted twice"),
    }
    match publish(&mut issues, &mut queue, 2, "T2", "h", "t", &recipients(&["b@x.com", "b@x.com"])) {
        Err(zero2prod::routes::admin::newsletter::PublishError::UnexpectedError(m)) => {
            assert_eq!(m, "Failed to enqueue delivery tasks")
        }
        _ => panic!("a recipient was accepted twice"),
    }
    assert_eq!((issues.len(), queue.len()), (1, 1));
}

#[test]
fn flash_messages_are_rendered_one_per_line() {
    assert_eq!(render_flash_messages(&Vec::new()), "");
    let html = render_flash_messages(&recipients(&["first", "second"]));
    assert_eq!(html, "<p><i>first</i></p>\n<p><i>second</i></p>\n");
    assert_eq!(success_message(), "The newsletter issue has been accepted - emails will go out shortly.");
}

#[test]
fn basic_credentials_are_read_from_the_header() {
    let credentials = basic_authentication(Some("Basic YWRtaW46cGFzczp3b3Jk")).ok().unwrap();
    assert_eq!((credentials.username.as_str(), credentials.password.as_str()), ("admin", "pass:word"));
    let credentials = basic_authentication(Some("Basic dXNlcjo=")).ok().unwrap();
    assert_eq!((credentials.username.as_str(), credentials.password.as_str()), ("user", ""));
    let credentials = basic_authentication(Some("Basic OnB3")).ok().unwrap();
    assert_eq!((credentials.username.as_str(), credentials.password.as_str()), ("", "pw"));
}

#[test]
fn each_fault_of_the_header_has_its_error() {
    assert_eq!(basic_authentication(None).err(), Some(BasicAuthError::MissingHeader));
    assert_eq!(basic_authentication(Some("Bearer abc")).err(), Some(BasicAuthError::NotBasic));
    assert_eq!(basic_authentication(Some("Basic")).err(), Some(BasicAuthError::NotBasic));
    assert_eq!(basic_authentication(Some("basic YWRtaW4=")).err(), Some(BasicAuthError::NotBasic));
    assert_eq!(basic_authentication(Some("Basic !!!")).err(), Some(BasicAuthError::NotBase64));
    assert_eq!(basic_authentication(Some("Basic //46eA==")).err(), Some(BasicAuthError::NotUtf8));
    assert_eq!(basic_authentication(Some("Basic YWRtaW4=")).err(), Some(BasicAuthError::MissingPassword));
    assert_eq!(split_credentials("nocolon").err(), Some(BasicAuthError::MissingPassword));
    assert_eq!(BasicAuthError::MissingHeader.message(), "The 'Authorization' header is missing.");
    assert_eq!(BasicAuthError::MissingPassword.message(), "A password must be provided in 'Basic' auth.");
}

#[test]
fn publish_errors_answer_with_their_status() {
    let refused = PublishError::AuthError("no".to_string()).error_response();
    assert_eq!(refused.status_code(), 401);
    assert_eq!(refused.headers().len(), 1);
    assert_eq!(refused.headers()[0].name, "WWW-Authenticate");
    assert_eq!(refused.headers()[0].value, b"Basic realm=\"publish\"");
    assert!(refused.body().is_empty());
    let failed = PublishError::UnexpectedError("boom".to_string()).error_response();
    assert_eq!(failed.status_code(), 500);
    assert!(failed.headers().is_empty());
}

#[test]
fn subscribers_are_parsed_each_in_its_place() {
    let parsed = get_confirmed_subscribers(recipients(&["a@x.com", "broken", "b@x.com"]));
    assert_eq!(parsed.len(), 3);
    assert_eq!(parsed[0].as_ref().ok().unwrap().as_str(), "a@x.com");
    assert_eq!(parsed[1].as_ref().err().unwrap(), "broken is not a valid subscriber email.");
    assert_eq!(parsed[2].as_ref().ok().unwrap().as_str(), "b@x.com");
    let email = SubscriberEmail::parse("a@x.com".to_string()).ok().unwrap();
    assert!(matches!(send_failure(&email), PublishError::UnexpectedError(ref m) if m == "Failed to send newsletter to a@x.com"));
    let body = BodyData { content: Content { html: "h".to_string(), text: "t".to_string() }, title: "T".to_string() };
    assert_eq!((body.title.as_str(), body.content.html.as_str(), body.content.text.as_str()), ("T", "h", "t"));
}

#[test]
fn successful_login_goes_home() {
    let redirect = login(Ok(7), "secret");
    assert_eq!(redirect.location, "/");
    assert!(redirect.error.is_none());
}

#[test]
fn failed_login_goes_back_with_a_signed_error() {
    let redirect = login(Err(AuthError::InvalidCredentials("Invalid password.".to_string())), "secret");
    assert_eq!(
        redirect.location,
        "/login?error=Authentication%20failed&tag=d33fdf72c1e06762ec451072c83a4491df8bbcc951df29e59569aa3cfc0f8c34"
    );
    assert!(matches!(redirect.error, Some(LoginError::AuthError(ref m)) if m == "Invalid password."));
    let redirect = login(Err(AuthError::UnexpectedError("db".to_string())), "secret");
    assert_eq!(
        redirect.location,
        "/login?error=Something%20went%20wrong&tag=fef3aee5ab92b021d1a11ee4a0b73d3121f855bf29a0c21830536181b7eef8f0"
    );
    assert!(matches!(redirect.error, Some(LoginError::UnexepctedError(ref m)) if m == "db"));
    assert_eq!(LoginError::AuthError(String::new()).message(), "Authentication failed");
    assert_eq!(signed_location("error=x", "ab"), "/login?error=x&tag=ab");
}

#[test]
fn tag_depends_on_the_secret() {
    let one = LoginError::AuthError(String::new()).error_location("secret");
    let other = LoginError::AuthError(String::new()).error_location("another");
    assert_ne!(one, other);
    assert_eq!(one.len(), other.len());
}

#[test]
fn new_password_rules() {
    let ok13 = "a".repeat(13);
    let ok127 = "a".repeat(127);
    assert_eq!(check_new_password(&ok13, &ok13), None);
    assert_eq!(check_new_password(&ok127, &ok127), None);
    assert_eq!(check_new_password(&"a".repeat(12), &"a".repeat(12)), Some(PasswordNotice::LengthOutOfBounds));
    assert_eq!(check_new_password(&"a".repeat(128), &"a".repeat(128)), Some(PasswordNotice::LengthOutOfBounds));
    assert_eq!(check_new_password(&ok13, &ok127), Some(PasswordNotice::FieldsDoNotMatch));
    assert_eq!(check_new_password("short", "other"), Some(PasswordNotice::FieldsDoNotMatch));
    assert_eq!(check_new_password(&"\u{e9}".repeat(13), &"\u{e9}".repeat(13)), None);
}

#[test]
fn password_notices_in_words() {
    assert_eq!(PasswordNotice::FieldsDoNotMatch.message(), "Password fields must match.");
    assert_eq!(PasswordNotice::LengthOutOfBounds.message(), "New password must be between 12 and 128 characters.");
    assert_eq!(PasswordNotice::CurrentPasswordIncorrect.message(), "The current password is incorrect.");
    assert_eq!(PasswordNotice::Changed.message(), "Your password has been changed.");
}

#[test]
fn outcome_of_validating_the_current_password() {
    assert!(matches!(change_password(Ok(7)), AfterValidation::Proceed));
    assert!(matches!(
        change_password(Err(AuthError::InvalidCredentials("x".to_string()))),
        AfterValidation::Notify(PasswordNotice::CurrentPasswordIncorrect)
    ));
    assert!(matches!(change_password(Err(AuthError::UnexpectedError("db".to_string()))), AfterValidation::Fail(ref m) if m == "db"));
}

#[test]
fn every_published_issue_gets_its_own_identifier() {
    let (mut idempotency, mut issues, mut queue) = (IdempotencyStore::new(), IssueStore::new(), DeliveryQueue::new());
    let list = recipients(&["a@x.com"]);
    assert!(publish_newsletter(form("K1"), &mut idempotency, &mut issues, &mut queue, 7, 1, &list).is_ok());
    assert!(publish_newsletter(form("K2"), &mut idempotency, &mut issues, &mut queue, 7, 2, &list).is_ok());
    assert_eq!((idempotency.len(), issues.len(), queue.len()), (2, 2, 2));
    assert!(issues.get_issue(0).is_none());
}
