//! Logging in: where the caller is sent afterwards.

use vstd::prelude::*;
use vstd::string::StringExecFns;
use vstd::utf8::encode_utf8;

use hmac::Mac;

use crate::authentication::AuthError;

verus! {

/// Why a login failed, as the caller is told.
pub enum LoginError {
    /// The credentials were refused.
    AuthError(String),
    /// The check could not be made.
    UnexepctedError(String),
}

/// The text shown for a failed login.
pub open spec fn login_error_text(error: LoginError) -> Seq<char> {
    match error {
        LoginError::AuthError(_) => "Authentication failed"@,
        LoginError::UnexepctedError(_) => "Something went wrong"@,
    }
}

/// Whether a byte stands for itself in a percent-encoded text: an ASCII
/// letter or digit, `-`, `.`, `_` or `~`.
pub open spec fn is_unreserved(byte: u8) -> bool {
    ||| 0x30 <= byte <= 0x39
    ||| 0x41 <= byte <= 0x5a
    ||| 0x61 <= byte <= 0x7a
    ||| byte == 0x2d
    ||| byte == 0x2e
    ||| byte == 0x5f
    ||| byte == 0x7e
}

/// The upper-case hexadecimal digit for `digit`, which is below 16.
pub open spec fn hex_digit(digit: u8) -> char {
    if digit < 10 {
        ((0x30 + digit) as u8) as char
    } else {
        ((0x41 + digit - 10) as u8) as char
    }
}

/// The percent-encoding of `bytes`: an unreserved byte stands for itself,
/// any other becomes `%` and its two hexadecimal digits.
pub open spec fn percent_encoded(bytes: Seq<u8>) -> Seq<char>
    decreases bytes.len(),
{
    if bytes.len() == 0 {
        Seq::empty()
    } else {
        let byte = bytes[0];
        let head = if is_unreserved(byte) {
            seq![byte as char]
        } else {
            seq!['%', hex_digit(byte >> 4), hex_digit(byte & 15)]
        };
        head + percent_encoded(bytes.drop_first())
    }
}

/// The HMAC-SHA256 tag of `message` under the key `secret`, both taken
/// as UTF-8, in lower-case hexadecimal digits.
pub uninterp spec fn hmac_sha256_hex(secret: Seq<char>, message: Seq<char>) -> Seq<char>;

/// `urlencoding::encode`: every byte of the text's UTF-8 form is
/// percent-encoded unless it is a letter, a digit, `-`, `_`, `.` or `~`.
#[verifier::external_body]
fn url_encode(text: &str) -> (encoded: String)
    ensures
        encoded@ == percent_encoded(encode_utf8(text@)),
{
    urlencoding::encode(text).into_owned()
}

/// `Hmac::<Sha256>`: `new_from_slice`, `update` and `finalize`, the tag
/// written in lower-case hexadecimal. The tag is a function of key and
/// message alone; no more is claimed of it.
#[verifier::external_body]
fn hmac_tag(secret: &str, message: &str) -> (tag: String)
    ensures
        tag@ == hmac_sha256_hex(secret@, message@),
{
    let Ok(mut mac) = hmac::Hmac::<sha2::Sha256>::new_from_slice(secret.as_bytes()) else {
        return String::new();
    };
    mac.update(message.as_bytes());
    format!("{:x}", mac.finalize().into_bytes())
}

impl LoginError {
    /// The text shown to the caller.
    pub fn message(&self) -> (text: &'static str)
        ensures
            text@ == login_error_text(*self),
    {
        match self {
            LoginError::AuthError(_) => "Authentication failed",
            LoginError::UnexepctedError(_) => "Something went wrong",
        }
    }

    /// Where a caller with this error is sent: back to the login page,
    /// with the error text and a tag that vouches for it.
    pub fn error_location(&self, secret: &str) -> (location: String)
        ensures
            location@ == error_location_text(login_error_text(*self), secret@),
    {
        let encoded = url_encode(self.message());
        let query = String::from_str("error=").concat(encoded.as_str());
        let tag = hmac_tag(secret, query.as_str());
        signed_location(query.as_str(), tag.as_str())
    }
}

/// The query string that carries the error text.
pub open spec fn error_query(text: Seq<char>) -> Seq<char> {
    "error="@ + percent_encoded(encode_utf8(text))
}

/// The location that carries the error text `text`, signed with `secret`.
pub open spec fn error_location_text(text: Seq<char>, secret: Seq<char>) -> Seq<char> {
    "/login?"@ + error_query(text) + "&tag="@ + hmac_sha256_hex(secret, error_query(text))
}

/// The login page's location with `query` and its `tag`.
pub fn signed_location(query: &str, tag: &str) -> (location: String)
    ensures
        location@ == "/login?"@ + query@ + "&tag="@ + tag@,
{
    String::from_str("/login?").concat(query).concat("&tag=").concat(tag)
}

/// The error a caller is told for a failed authentication. The cause is
/// kept.
pub fn login_error(error: AuthError) -> (e: LoginError)
    ensures
        match error {
            AuthError::InvalidCredentials(cause) => e matches LoginError::AuthError(kept) && kept
                == cause,
            AuthError::UnexpectedError(cause) => e matches LoginError::UnexepctedError(kept)
                && kept == cause,
        },
{
    match error {
        AuthError::InvalidCredentials(cause) => LoginError::AuthError(cause),
        AuthError::UnexpectedError(cause) => LoginError::UnexepctedError(cause),
    }
}

/// Where a caller is sent after a login attempt, and why it failed if
/// it did.
pub struct LoginRedirect {
    pub location: String,
    pub error: Option<LoginError>,
}

/// Decides where the caller goes after the credentials were validated:
/// to the home page if they were accepted, else back to the login page
/// with the signed error.
pub fn login(validation: Result<u128, AuthError>, secret: &str) -> (redirect: LoginRedirect)
    ensures
        match validation {
            Ok(_) => redirect.location@ == "/"@ && redirect.error is None,
            Err(AuthError::InvalidCredentials(cause)) => {
                &&& redirect.error matches Some(LoginError::AuthError(kept))
                &&& kept == cause
                &&& redirect.location@ == error_location_text("Authentication failed"@, secret@)
            },
            Err(AuthError::UnexpectedError(cause)) => {
                &&& redirect.error matches Some(LoginError::UnexepctedError(kept))
                &&& kept == cause
                &&& redirect.location@ == error_location_text("Something went wrong"@, secret@)
            },
        },
{
    match validation {
        Ok(_) => LoginRedirect { location: String::from_str("/"), error: None },
        Err(e) => {
            let error = login_error(e);
            let location = error.error_location(secret);
            LoginRedirect { location, error: Some(error) }
        },
    }
}

} // verus!
