//! Password credentials, checked against Argon2 hashes in PHC string form.

use vstd::prelude::*;

use argon2::PasswordHasher;
use argon2::PasswordVerifier;

verus! {

/// Memory cost of new hashes, in KiB.
pub const HASH_MEMORY_KIB: u32 = 15000;

/// Number of passes of new hashes.
pub const HASH_ITERATIONS: u32 = 2;

/// Degree of parallelism of new hashes.
pub const HASH_PARALLELISM: u32 = 1;

/// Why a caller was not authenticated.
pub enum AuthError {
    /// The user is unknown or the password is wrong.
    InvalidCredentials(String),
    /// The check itself could not be made.
    UnexpectedError(String),
}

/// What a caller presents.
pub struct Credentials {
    pub password: String,
    pub username: String,
}

/// Whether `hash` parses as a PHC string, as `PasswordHash::new` decides.
pub uninterp spec fn phc_well_formed(hash: Seq<char>) -> bool;

/// Whether Argon2 accepts `password` for the PHC string `hash`, as
/// `Argon2::default().verify_password` decides.
pub uninterp spec fn argon2_accepts(hash: Seq<char>, password: Seq<char>) -> bool;

/// The PHC string that Argon2id, version 0x13, computes for `password`
/// with `salt` and the given costs, or none if it refuses them.
pub uninterp spec fn argon2id_phc(
    password: Seq<char>,
    salt: Seq<char>,
    memory_kib: u32,
    iterations: u32,
    parallelism: u32,
) -> Option<Seq<char>>;

/// `argon2::PasswordHash::new`: whether the text parses is a function of
/// the text alone; no more is claimed.
#[verifier::external_body]
fn parses_as_phc(hash: &str) -> (ok: bool)
    ensures
        ok == phc_well_formed(hash@),
{
    argon2::PasswordHash::new(hash).is_ok()
}

/// `argon2::Argon2::verify_password` with the default instance, on a text
/// that parses: whether it returns `Ok` is a function of the hash and the
/// password alone; no more is claimed.
#[verifier::external_body]
fn argon2_verify(hash: &str, password: &str) -> (ok: bool)
    requires
        phc_well_formed(hash@),
    ensures
        ok == argon2_accepts(hash@, password@),
{
    match argon2::PasswordHash::new(hash) {
        Ok(parsed) => argon2::Argon2::default().verify_password(password.as_bytes(), &parsed).is_ok(),
        Err(_) => false,
    }
}

/// `argon2::password_hash::SaltString::generate` on the thread's random
/// generator: nothing is claimed of the salt.
#[verifier::external_body]
fn generate_salt() -> (salt: String) {
    argon2::password_hash::SaltString::generate(&mut rand::thread_rng()).as_str().to_string()
}

/// `argon2::Argon2::hash_password` for Argon2id, version 0x13: the PHC
/// string is a function of password, salt and costs alone; costs or a
/// salt that the crate refuses give none.
#[verifier::external_body]
fn argon2id_hash(
    password: &str,
    salt: &str,
    memory_kib: u32,
    iterations: u32,
    parallelism: u32,
) -> (hash: Option<String>)
    ensures
        match hash {
            Some(text) => argon2id_phc(password@, salt@, memory_kib, iterations, parallelism)
                == Some(text@),
            None => argon2id_phc(password@, salt@, memory_kib, iterations, parallelism) is None,
        },
{
    let params = argon2::Params::new(memory_kib, iterations, parallelism, None).ok()?;
    let salt = argon2::password_hash::SaltString::from_b64(salt).ok()?;
    let hasher = argon2::Argon2::new(argon2::Algorithm::Argon2id, argon2::Version::V0x13, params);
    hasher.hash_password(password.as_bytes(), &salt).ok().map(|h| h.to_string())
}

/// The hash that is checked when the user is unknown, so that the check
/// takes as long as for a known user.
pub fn fallback_hash() -> (hash: &'static str)
    ensures
        hash@ == fallback_hash_text(),
{
    "$argon2id$v=19$m=15000,t=2,p=1$gZiV/M1gPc22ElAH/Jh1Hw$CWOrkoo7oJBQ/iyh7uJ0LO2aLEfrHwTWllSAxT0zRno"
}

/// The text of the fallback hash.
pub open spec fn fallback_hash_text() -> Seq<char> {
    "$argon2id$v=19$m=15000,t=2,p=1$gZiV/M1gPc22ElAH/Jh1Hw$CWOrkoo7oJBQ/iyh7uJ0LO2aLEfrHwTWllSAxT0zRno"@
}

/// The verdict on a password: the hash must parse, and Argon2 must accept
/// the password for it.
pub open spec fn password_verdict(expected_hash: Seq<char>, candidate: Seq<char>, r: Result<
    (),
    AuthError,
>) -> bool {
    if !phc_well_formed(expected_hash) {
        r matches Err(AuthError::UnexpectedError(message)) && message@
            == "Failed to parse PHC format hash string."@
    } else if !argon2_accepts(expected_hash, candidate) {
        r matches Err(AuthError::InvalidCredentials(message)) && message@ == "Invalid password."@
    } else {
        r is Ok
    }
}

/// Checks `password_candidate` against `expected_hash`.
pub fn verify_password_hash(expected_hash: &str, password_candidate: &str) -> (r: Result<
    (),
    AuthError,
>)
    ensures
        password_verdict(expected_hash@, password_candidate@, r),
{
    if !parses_as_phc(expected_hash) {
        return Err(
            AuthError::UnexpectedError("Failed to parse PHC format hash string.".to_owned()),
        );
    }
    if argon2_verify(expected_hash, password_candidate) {
        Ok(())
    } else {
        Err(AuthError::InvalidCredentials("Invalid password.".to_owned()))
    }
}

/// The hash that the credentials of a user are checked against: the
/// stored one, or the fallback if the user is unknown.
pub open spec fn expected_hash(stored: Option<(u128, String)>) -> Seq<char> {
    match stored {
        Some((_, hash)) => hash@,
        None => fallback_hash_text(),
    }
}

/// The outcome of validating `credentials` against what is stored for
/// their user name.
pub open spec fn validation_outcome(
    credentials: Credentials,
    stored: Option<(u128, String)>,
    r: Result<u128, AuthError>,
) -> bool {
    let hash = expected_hash(stored);
    if !phc_well_formed(hash) || !argon2_accepts(hash, credentials.password@) {
        &&& r is Err
        &&& password_verdict(hash, credentials.password@, Err(r->Err_0))
    } else {
        match stored {
            Some((user_id, _)) => r == Ok::<u128, AuthError>(user_id),
            None => r matches Err(AuthError::InvalidCredentials(message)) && message@
                == "Unkown username."@,
        }
    }
}

/// Validates `credentials` against `stored`, the identifier and password
/// hash that the store holds for their user name, if it holds any.
///
/// The password is checked in either case, against the fallback hash if
/// the user is unknown. The user's identifier is returned only if the
/// user is known and the password accepted.
pub fn validate_credentials(credentials: Credentials, stored: Option<(u128, String)>) -> (r:
    Result<u128, AuthError>)
    ensures
        validation_outcome(credentials, stored, r),
{
    let verdict = match &stored {
        Some((_, hash)) => verify_password_hash(hash.as_str(), credentials.password.as_str()),
        None => verify_password_hash(fallback_hash(), credentials.password.as_str()),
    };
    match verdict {
        Err(e) => Err(e),
        Ok(()) => match stored {
            Some((user_id, _)) => Ok(user_id),
            None => Err(AuthError::InvalidCredentials("Unkown username.".to_owned())),
        },
    }
}

/// Hashes `password` with `salt` for storage.
pub fn hash_password_with_salt(password: &str, salt: &str) -> (r: Result<String, AuthError>)
    ensures
        match r {
            Ok(hash) => argon2id_phc(
                password@,
                salt@,
                HASH_MEMORY_KIB,
                HASH_ITERATIONS,
                HASH_PARALLELISM,
            ) == Some(hash@),
            Err(e) => {
                &&& argon2id_phc(
                    password@,
                    salt@,
                    HASH_MEMORY_KIB,
                    HASH_ITERATIONS,
                    HASH_PARALLELISM,
                ) is None
                &&& e matches AuthError::UnexpectedError(message)
                &&& message@ == "Failed to hash password."@
            },
        },
{
    match argon2id_hash(password, salt, HASH_MEMORY_KIB, HASH_ITERATIONS, HASH_PARALLELISM) {
        Some(hash) => Ok(hash),
        None => Err(AuthError::UnexpectedError("Failed to hash password.".to_owned())),
    }
}

/// Hashes `password` with a fresh random salt for storage. Whatever salt
/// was drawn, the result is what `hash_password_with_salt` gives for it.
pub fn compute_password_hash(password: &str) -> (r: Result<String, AuthError>)
    ensures
        exists|salt: Seq<char>|
            match r {
                Ok(hash) => #[trigger] argon2id_phc(
                    password@,
                    salt,
                    HASH_MEMORY_KIB,
                    HASH_ITERATIONS,
                    HASH_PARALLELISM,
                ) == Some(hash@),
                Err(_) => argon2id_phc(
                    password@,
                    salt,
                    HASH_MEMORY_KIB,
                    HASH_ITERATIONS,
                    HASH_PARALLELISM,
                ) is None,
            },
{
    let salt = generate_salt();
    hash_password_with_salt(password, salt.as_str())
}

} // verus!
