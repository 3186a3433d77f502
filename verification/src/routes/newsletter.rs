//! Publishing over the API: credentials from the `Authorization` header,
//! the recipients of an issue, and what a failure answers.

use vstd::prelude::*;
use vstd::string::StrSliceExecFns;
use vstd::string::StringExecFns;
use vstd::utf8::decode_utf8;
use vstd::utf8::encode_utf8;
use vstd::utf8::valid_utf8;

use base64::Engine;

use crate::authentication::Credentials;
use crate::domain::invalid_email_message;
use crate::domain::is_valid_email;
use crate::domain::SubscriberEmail;
use crate::idempotency::response::HeaderContent;
use crate::idempotency::response::HeaderPair;
use crate::idempotency::response::ResponseContent;
use crate::idempotency::SavedResponse;
use crate::text::chars_of;

verus! {

/// The two renderings of an issue's body.
pub struct Content {
    pub html: String,
    pub text: String,
}

/// What a caller posts to publish an issue.
pub struct BodyData {
    pub content: Content,
    pub title: String,
}

/// Why publishing failed.
pub enum PublishError {
    /// The caller was not authenticated.
    AuthError(String),
    /// Anything else.
    UnexpectedError(String),
}

/// The challenge sent with a refusal.
pub open spec fn challenge() -> Seq<char> {
    "Basic realm=\"publish\""@
}

/// The response that answers `error`: 401 with a challenge for a caller
/// who was not authenticated, 500 for anything else, without a body.
pub open spec fn error_response_content(error: PublishError) -> ResponseContent {
    match error {
        PublishError::AuthError(_) => ResponseContent {
            status_code: 401,
            headers: seq![
                HeaderContent { name: "WWW-Authenticate"@, value: encode_utf8(challenge()) },
            ],
            body: Seq::empty(),
        },
        PublishError::UnexpectedError(_) => ResponseContent {
            status_code: 500,
            headers: Seq::empty(),
            body: Seq::empty(),
        },
    }
}

impl PublishError {
    /// The response that answers this error.
    pub fn error_response(&self) -> (response: SavedResponse)
        ensures
            response@ == error_response_content(*self),
    {
        let mut headers: Vec<HeaderPair> = Vec::new();
        let code: u16 = match self {
            PublishError::AuthError(_) => {
                headers.push(
                    HeaderPair {
                        name: String::from_str("WWW-Authenticate"),
                        value: "Basic realm=\"publish\"".as_bytes_vec(),
                    },
                );
                401
            },
            PublishError::UnexpectedError(_) => 500,
        };
        let response = SavedResponse::from_parts(code, headers, Vec::new());
        assert(response@.headers =~= error_response_content(*self).headers);
        response
    }
}

/// Why the `Authorization` header gave no credentials.
#[derive(Debug, Clone, Copy, PartialEq, Eq, Structural)]
pub enum BasicAuthError {
    /// There is no such header.
    MissingHeader,
    /// The header does not start with `Basic `.
    NotBasic,
    /// What follows `Basic ` is not base64.
    NotBase64,
    /// The decoded bytes are not UTF-8.
    NotUtf8,
    /// The decoded text holds no colon, hence no password.
    MissingPassword,
}

impl BasicAuthError {
    /// The error in words.
    pub fn message(&self) -> (text: &'static str)
        ensures
            text@ == basic_auth_message(*self),
    {
        match self {
            BasicAuthError::MissingHeader => "The 'Authorization' header is missing.",
            BasicAuthError::NotBasic => "The authorization scheme is no 'Basic'",
            BasicAuthError::NotBase64 => "Failed ot base64-decode 'Basic' credentials.",
            BasicAuthError::NotUtf8 => "The decoded credentials string is not valid UTF8.",
            BasicAuthError::MissingPassword => "A password must be provided in 'Basic' auth.",
        }
    }
}

/// The words for each error.
pub open spec fn basic_auth_message(error: BasicAuthError) -> Seq<char> {
    match error {
        BasicAuthError::MissingHeader => "The 'Authorization' header is missing."@,
        BasicAuthError::NotBasic => "The authorization scheme is no 'Basic'"@,
        BasicAuthError::NotBase64 => "Failed ot base64-decode 'Basic' credentials."@,
        BasicAuthError::NotUtf8 => "The decoded credentials string is not valid UTF8."@,
        BasicAuthError::MissingPassword => "A password must be provided in 'Basic' auth."@,
    }
}

/// The bytes that `text` stands for in standard base64 with padding, or
/// none if it is not such an encoding.
pub uninterp spec fn base64_decoded(text: Seq<char>) -> Option<Seq<u8>>;

/// `base64::engine::general_purpose::STANDARD.decode`: the outcome is a
/// function of the text alone; no more is claimed of it.
#[verifier::external_body]
fn base64_decode(text: &str) -> (bytes: Option<Vec<u8>>)
    ensures
        match bytes {
            Some(decoded) => base64_decoded(text@) == Some(decoded@),
            None => base64_decoded(text@) is None,
        },
{
    base64::engine::general_purpose::STANDARD.decode(text).ok()
}

/// `String::from_utf8`: the bytes as text if they are valid UTF-8, none
/// otherwise.
#[verifier::external_body]
fn string_from_utf8(bytes: Vec<u8>) -> (text: Option<String>)
    ensures
        match text {
            Some(s) => valid_utf8(bytes@) && s@ == decode_utf8(bytes@),
            None => !valid_utf8(bytes@),
        },
{
    String::from_utf8(bytes).ok()
}

/// The index of the first colon in `text`, or its length if it has none.
pub open spec fn first_colon(text: Seq<char>) -> int
    decreases text.len(),
{
    if text.len() == 0 {
        0
    } else if text[0] == ':' {
        0
    } else {
        1 + first_colon(text.drop_first())
    }
}

/// User name and password in `text`: what stands before the first colon
/// and what stands after it.
pub open spec fn split_at_colon(text: Seq<char>) -> Result<(Seq<char>, Seq<char>), BasicAuthError> {
    let p = first_colon(text);
    if p >= text.len() {
        Err(BasicAuthError::MissingPassword)
    } else {
        Ok((text.subrange(0, p), text.subrange(p + 1, text.len() as int)))
    }
}

/// The scheme that the header has to name, with the blank that follows.
pub open spec fn basic_prefix() -> Seq<char> {
    "Basic "@
}

/// User name and password in the value of an `Authorization` header.
pub open spec fn basic_credentials(header: Option<Seq<char>>) -> Result<
    (Seq<char>, Seq<char>),
    BasicAuthError,
> {
    match header {
        None => Err(BasicAuthError::MissingHeader),
        Some(value) => {
            if !(value.len() >= 6 && value.subrange(0, 6) == basic_prefix()) {
                Err(BasicAuthError::NotBasic)
            } else {
                match base64_decoded(value.subrange(6, value.len() as int)) {
                    None => Err(BasicAuthError::NotBase64),
                    Some(bytes) => {
                        if !valid_utf8(bytes) {
                            Err(BasicAuthError::NotUtf8)
                        } else {
                            split_at_colon(decode_utf8(bytes))
                        }
                    },
                }
            }
        },
    }
}

/// Whether `r` holds what `expected` says.
pub open spec fn credentials_match(
    r: Result<Credentials, BasicAuthError>,
    expected: Result<(Seq<char>, Seq<char>), BasicAuthError>,
) -> bool {
    match expected {
        Ok((username, password)) => r matches Ok(c) && c.username@ == username && c.password@
            == password,
        Err(e) => r matches Err(got) && got == e,
    }
}

/// `first_colon` is the least index of a colon.
proof fn lemma_first_colon(text: Seq<char>)
    ensures
        0 <= first_colon(text) <= text.len(),
        forall|i: int| 0 <= i < first_colon(text) ==> text[i] != ':',
        first_colon(text) < text.len() ==> text[first_colon(text)] == ':',
    decreases text.len(),
{
    if text.len() > 0 && text[0] != ':' {
        let rest = text.drop_first();
        lemma_first_colon(rest);
        assert forall|i: int| 0 <= i < first_colon(text) implies text[i] != ':' by {
            if i > 0 {
                assert(text[i] == rest[i - 1]);
            }
        }
    }
}

/// Splits decoded credentials into user name and password at the first
/// colon. The password may hold further colons and may be empty.
pub fn split_credentials(text: &str) -> (r: Result<Credentials, BasicAuthError>)
    ensures
        credentials_match(r, split_at_colon(text@)),
{
    let chars = chars_of(text);
    let n: usize = chars.len();
    let mut i: usize = 0;
    while i < n
        invariant
            chars@ == text@,
            n == text@.len(),
            i <= n,
            forall|j: int| 0 <= j < i ==> text@[j] != ':',
        decreases n - i,
    {
        if chars[i] == ':' {
            proof {
                lemma_first_colon(text@);
                let p = first_colon(text@);
                if p < i {
                    assert(text@[p] == ':');
                }
            }
            let username = String::from_str(text.substring_char(0, i));
            let password = String::from_str(text.substring_char(i + 1, n));
            return Ok(Credentials { password, username });
        }
        i += 1;
    }
    proof {
        lemma_first_colon(text@);
        let p = first_colon(text@);
        if p < n {
            assert(text@[p] == ':');
        }
    }
    Err(BasicAuthError::MissingPassword)
}

/// Reads user name and password from the value of the `Authorization`
/// header, if there is one: `Basic `, then the base64 form of
/// `username:password`.
pub fn basic_authentication(authorization: Option<&str>) -> (r: Result<
    Credentials,
    BasicAuthError,
>)
    ensures
        credentials_match(
            r,
            basic_credentials(
                match authorization {
                    Some(value) => Some(value@),
                    None => None,
                },
            ),
        ),
{
    let value = match authorization {
        Some(value) => value,
        None => { return Err(BasicAuthError::MissingHeader); },
    };
    let n: usize = value.unicode_len();
    proof {
        reveal_strlit("Basic ");
    }
    if n < 6 {
        return Err(BasicAuthError::NotBasic);
    }
    let starts = value.get_char(0) == 'B' && value.get_char(1) == 'a' && value.get_char(2) == 's'
        && value.get_char(3) == 'i' && value.get_char(4) == 'c' && value.get_char(5) == ' ';
    proof {
        let head = value@.subrange(0, 6);
        if starts {
            assert(head =~= basic_prefix());
        } else {
            assert(head[0] == value@[0] && head[1] == value@[1] && head[2] == value@[2]);
            assert(head[3] == value@[3] && head[4] == value@[4] && head[5] == value@[5]);
        }
    }
    if !starts {
        return Err(BasicAuthError::NotBasic);
    }
    let encoded = value.substring_char(6, n);
    let bytes = match base64_decode(encoded) {
        Some(bytes) => bytes,
        None => { return Err(BasicAuthError::NotBase64); },
    };
    let text = match string_from_utf8(bytes) {
        Some(text) => text,
        None => { return Err(BasicAuthError::NotUtf8); },
    };
    split_credentials(text.as_str())
}

/// The addresses among `emails` that are valid, each in its place, and
/// the refusal for each that is not.
pub fn get_confirmed_subscribers(emails: Vec<String>) -> (subscribers: Vec<
    Result<SubscriberEmail, String>,
>)
    ensures
        subscribers@.len() == emails@.len(),
        forall|i: int|
            0 <= i < emails@.len() ==> match #[trigger] subscribers@[i] {
                Ok(email) => is_valid_email(emails@[i]@) && email@ == emails@[i]@,
                Err(message) => !is_valid_email(emails@[i]@) && message@ == invalid_email_message(
                    emails@[i]@,
                ),
            },
{
    let mut subscribers: Vec<Result<SubscriberEmail, String>> = Vec::new();
    let mut i: usize = 0;
    while i < emails.len()
        invariant
            i <= emails.len(),
            subscribers@.len() == i,
            forall|j: int|
                0 <= j < i ==> match #[trigger] subscribers@[j] {
                    Ok(email) => is_valid_email(emails@[j]@) && email@ == emails@[j]@,
                    Err(message) => !is_valid_email(emails@[j]@) && message@
                        == invalid_email_message(emails@[j]@),
                },
        decreases emails.len() - i,
    {
        subscribers.push(SubscriberEmail::parse(emails[i].clone()));
        i += 1;
    }
    subscribers
}

/// The error that ends publishing when the mailer failed for `email`.
pub fn send_failure(email: &SubscriberEmail) -> (e: PublishError)
    ensures
        e matches PublishError::UnexpectedError(message) && message@
            == "Failed to send newsletter to "@ + email@,
{
    PublishError::UnexpectedError(
        String::from_str("Failed to send newsletter to ").concat(email.as_str()),
    )
}

} // verus!
