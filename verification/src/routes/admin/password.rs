//! Changing the administrator's password: what is asked of the new
//! password, and what the caller is told.

use vstd::prelude::*;
use vstd::string::StrSliceExecFns;

use crate::authentication::AuthError;
use crate::text::str_eq;

verus! {

/// The fewest characters a new password may have.
pub const MIN_PASSWORD_LENGTH: usize = 13;

/// The most characters a new password may have.
pub const MAX_PASSWORD_LENGTH: usize = 127;

/// What the caller is told about a password change.
#[derive(Debug, Clone, Copy, PartialEq, Eq, Structural)]
pub enum PasswordNotice {
    /// The new password and its repetition differ.
    FieldsDoNotMatch,
    /// The new password is too short or too long.
    LengthOutOfBounds,
    /// The current password was not accepted.
    CurrentPasswordIncorrect,
    /// The password has been changed.
    Changed,
}

/// The words for each notice.
pub open spec fn notice_text(notice: PasswordNotice) -> Seq<char> {
    match notice {
        PasswordNotice::FieldsDoNotMatch => "Password fields must match."@,
        PasswordNotice::LengthOutOfBounds => "New password must be between 12 and 128 characters."@,
        PasswordNotice::CurrentPasswordIncorrect => "The current password is incorrect."@,
        PasswordNotice::Changed => "Your password has been changed."@,
    }
}

impl PasswordNotice {
    /// The notice in words.
    pub fn message(&self) -> (text: &'static str)
        ensures
            text@ == notice_text(*self),
    {
        match self {
            PasswordNotice::FieldsDoNotMatch => "Password fields must match.",
            PasswordNotice::LengthOutOfBounds => {
                "New password must be between 12 and 128 characters."
            },
            PasswordNotice::CurrentPasswordIncorrect => "The current password is incorrect.",
            PasswordNotice::Changed => "Your password has been changed.",
        }
    }
}

/// The fault of a new password, if it has one: the repetition is
/// checked first, then the length in characters.
pub open spec fn new_password_fault(new_password: Seq<char>, repetition: Seq<char>) -> Option<
    PasswordNotice,
> {
    if new_password != repetition {
        Some(PasswordNotice::FieldsDoNotMatch)
    } else if new_password.len() < MIN_PASSWORD_LENGTH || new_password.len() > MAX_PASSWORD_LENGTH {
        Some(PasswordNotice::LengthOutOfBounds)
    } else {
        None
    }
}

/// Checks a new password and its repetition.
pub fn check_new_password(new_password: &str, new_password_check: &str) -> (fault: Option<
    PasswordNotice,
>)
    ensures
        fault == new_password_fault(new_password@, new_password_check@),
{
    if !str_eq(new_password, new_password_check) {
        return Some(PasswordNotice::FieldsDoNotMatch);
    }
    let length: usize = new_password.unicode_len();
    if length < MIN_PASSWORD_LENGTH || length > MAX_PASSWORD_LENGTH {
        return Some(PasswordNotice::LengthOutOfBounds);
    }
    None
}

/// What follows the validation of the current password.
pub enum AfterValidation {
    /// The password was accepted: store the new one.
    Proceed,
    /// Tell the caller, and change nothing.
    Notify(PasswordNotice),
    /// The check could not be made: a server error.
    Fail(String),
}

/// Decides what follows the validation of the current password.
pub fn change_password(validation: Result<u128, AuthError>) -> (next: AfterValidation)
    ensures
        match validation {
            Ok(_) => next is Proceed,
            Err(AuthError::InvalidCredentials(_)) => next matches AfterValidation::Notify(notice)
                && notice == PasswordNotice::CurrentPasswordIncorrect,
            Err(AuthError::UnexpectedError(cause)) => next matches AfterValidation::Fail(kept)
                && kept == cause,
        },
{
    match validation {
        Ok(_) => AfterValidation::Proceed,
        Err(AuthError::InvalidCredentials(_)) => AfterValidation::Notify(
            PasswordNotice::CurrentPasswordIncorrect,
        ),
        Err(AuthError::UnexpectedError(cause)) => AfterValidation::Fail(cause),
    }
}

} // verus!
