use zero2prod::idempotency::key::check_key;
use zero2prod::idempotency::IdempotencyKey;
use zero2prod::idempotency::KeyError;

#[test]
fn empty_key_is_rejected() {
    assert_eq!(IdempotencyKey::try_from(String::new()).err(), Some(KeyError::Empty));
}

#[test]
fn key_of_fifty_characters_is_too_long() {
    let text = "a".repeat(50);
    assert_eq!(IdempotencyKey::try_from(text).err(), Some(KeyError::TooLong));
}

#[test]
fn key_of_forty_nine_characters_is_accepted() {
    let text = "a".repeat(49);
    let key = IdempotencyKey::try_from(text.clone()).ok().unwrap();
    assert_eq!(key.as_str(), text);
}

#[test]
fn key_with_unsafe_character_is_rejected() {
    assert_eq!(check_key("abc def"), Some(KeyError::InvalidCharacter));
    assert_eq!(check_key("abc/def"), Some(KeyError::InvalidCharacter));
    assert_eq!(check_key("cl\u{e9}"), Some(KeyError::InvalidCharacter));
}

#[test]
fn key_keeps_its_characters() {
    let key = IdempotencyKey::try_from("K1-retry_42".to_string()).ok().unwrap();
    assert_eq!(key.as_str(), "K1-retry_42");
    assert_eq!(key.duplicate().as_str(), "K1-retry_42");
}
