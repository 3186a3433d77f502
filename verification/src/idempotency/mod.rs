//! The idempotency guard: keys, saved responses and the claim protocol.

pub mod key;
pub mod persistence;
pub mod response;

pub use key::IdempotencyKey;
pub use key::KeyError;
pub use response::HeaderPair;
pub use response::SavedResponse;
pub use persistence::GuardError;
pub use persistence::IdempotencyStore;
pub use persistence::NextAction;
