use zero2prod::domain::validate_email;
use zero2prod::domain::SubscriberEmail;

#[test]
fn ordinary_addresses_are_valid() {
    for s in ["a@x.com", "ursula_le_guin@gmail.com", "first.last+tag@sub.example-domain.org", "x@y"] {
        assert!(validate_email(s), "{}", s);
        assert_eq!(SubscriberEmail::parse(s.to_string()).ok().unwrap().as_str(), s);
    }
}

#[test]
fn malformed_addresses_are_refused() {
    for s in ["", "ursuladomain.com", "@domain.com", "a@", "a@@x.com", "a b@x.com", "a@x..com", "a@.x.com",
        "a@x.com.", "a@-x.com", "a@x.com-", "a@x_y.com", "a@b@c.com", "\u{e9}@x.com"] {
        assert!(!validate_email(s), "{}", s);
    }
}

#[test]
fn refusal_names_the_address() {
    let refusal = SubscriberEmail::parse("nobody".to_string()).err().unwrap();
    assert_eq!(refusal, "nobody is not a valid subscriber email.");
}

#[test]
fn length_limits_of_an_address() {
    let local64 = "a".repeat(64);
    let local65 = "a".repeat(65);
    assert!(validate_email(&format!("{}@x.com", local64)));
    assert!(!validate_email(&format!("{}@x.com", local65)));
    let domain255 = format!("{}.com", "d".repeat(251));
    let domain256 = format!("{}.com", "d".repeat(252));
    assert!(validate_email(&format!("a@{}", domain255)));
    assert!(!validate_email(&format!("a@{}", domain256)));
}
