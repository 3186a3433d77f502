//! Who is calling: password credentials and their verification.

pub mod password;

pub use password::validate_credentials;
pub use password::AuthError;
pub use password::Credentials;
