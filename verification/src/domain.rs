//! Subscriber e-mail addresses.

use vstd::prelude::*;
use vstd::string::StringExecFns;

use crate::text::chars_of;

verus! {

/// The longest local part (before the `@`) that is accepted.
pub const MAX_LOCAL_LENGTH: usize = 64;

/// The longest domain (after the `@`) that is accepted.
pub const MAX_DOMAIN_LENGTH: usize = 255;

/// An ASCII letter or digit.
pub open spec fn is_alphanumeric(c: char) -> bool {
    ||| 'a' <= c <= 'z'
    ||| 'A' <= c <= 'Z'
    ||| '0' <= c <= '9'
}

/// A character allowed in the local part of an address.
pub open spec fn is_local_char(c: char) -> bool {
    ||| is_alphanumeric(c)
    ||| c == '.'
    ||| c == '!'
    ||| c == '#'
    ||| c == '$'
    ||| c == '%'
    ||| c == '&'
    ||| c == '\''
    ||| c == '*'
    ||| c == '+'
    ||| c == '/'
    ||| c == '='
    ||| c == '?'
    ||| c == '^'
    ||| c == '_'
    ||| c == '`'
    ||| c == '{'
    ||| c == '|'
    ||| c == '}'
    ||| c == '~'
    ||| c == '-'
}

/// A character allowed in the domain of an address.
pub open spec fn is_domain_char(c: char) -> bool {
    is_alphanumeric(c) || c == '-' || c == '.'
}

/// A well-formed local part: 1 to `MAX_LOCAL_LENGTH` local characters.
pub open spec fn is_valid_local(local: Seq<char>) -> bool {
    &&& 0 < local.len() <= MAX_LOCAL_LENGTH
    &&& forall|i: int| 0 <= i < local.len() ==> is_local_char(#[trigger] local[i])
}

/// A well-formed domain: 1 to `MAX_DOMAIN_LENGTH` domain characters, which
/// starts and ends with a letter or digit and in which every dot stands
/// between two letters or digits.
pub open spec fn is_valid_domain(domain: Seq<char>) -> bool {
    &&& 0 < domain.len() <= MAX_DOMAIN_LENGTH
    &&& forall|i: int| 0 <= i < domain.len() ==> is_domain_char(#[trigger] domain[i])
    &&& is_alphanumeric(domain[0])
    &&& is_alphanumeric(domain[domain.len() - 1])
    &&& forall|i: int|
        0 < i < domain.len() - 1 && #[trigger] domain[i] == '.' ==> is_alphanumeric(domain[i - 1])
            && is_alphanumeric(domain[i + 1])
}

/// `s` splits at index `at` into a valid local part, an `@` and a valid domain.
pub open spec fn splits_at(s: Seq<char>, at: int) -> bool {
    &&& 0 <= at < s.len()
    &&& s[at] == '@'
    &&& is_valid_local(s.subrange(0, at))
    &&& is_valid_domain(s.subrange(at + 1, s.len() as int))
}

/// An address is valid when it splits somewhere into local part, `@` and domain.
pub open spec fn is_valid_email(s: Seq<char>) -> bool {
    exists|at: int| splits_at(s, at)
}

/// The message with which `parse` refuses `s`.
pub open spec fn invalid_email_message(s: Seq<char>) -> Seq<char> {
    s + " is not a valid subscriber email."@
}

/// A validated subscriber address.
pub struct SubscriberEmail {
    address: String,
}

impl View for SubscriberEmail {
    type V = Seq<char>;

    closed spec fn view(&self) -> Seq<char> {
        self.address@
    }
}

/// Computes `is_alphanumeric`.
fn alphanumeric(c: char) -> (b: bool)
    ensures
        b == is_alphanumeric(c),
{
    ('a' <= c && c <= 'z') || ('A' <= c && c <= 'Z') || ('0' <= c && c <= '9')
}

/// Computes `is_local_char`.
fn local_char(c: char) -> (b: bool)
    ensures
        b == is_local_char(c),
{
    alphanumeric(c) || c == '.' || c == '!' || c == '#' || c == '$' || c == '%' || c == '&' || c
        == '\'' || c == '*' || c == '+' || c == '/' || c == '=' || c == '?' || c == '^' || c == '_'
        || c == '`' || c == '{' || c == '|' || c == '}' || c == '~' || c == '-'
}

/// Computes `is_domain_char`.
fn domain_char(c: char) -> (b: bool)
    ensures
        b == is_domain_char(c),
{
    alphanumeric(c) || c == '-' || c == '.'
}

/// The index of the first `@` in `s`, if every character before it is a
/// local character.
fn find_at(s: &Vec<char>, n: usize) -> (r: Option<usize>)
    requires
        n == s@.len(),
    ensures
        match r {
            Some(at) => at < n && s@[at as int] == '@' && forall|i: int|
                0 <= i < at ==> is_local_char(#[trigger] s@[i]),
            None => forall|at: int|
                0 <= at < n && s@[at] == '@' ==> exists|i: int|
                    0 <= i < at && !is_local_char(#[trigger] s@[i]),
        },
{
    let mut i: usize = 0;
    while i < n
        invariant
            n == s@.len(),
            i <= n,
            forall|j: int| 0 <= j < i ==> is_local_char(#[trigger] s@[j]),
        decreases n - i,
    {
        let c: char = s[i];
        if c == '@' {
            return Some(i);
        }
        if !local_char(c) {
            assert forall|at: int| 0 <= at < n && s@[at] == '@' implies exists|k: int|
                0 <= k < at && !is_local_char(#[trigger] s@[k]) by {
                assert(!is_local_char('@'));
                assert(at > i);
                assert(!is_local_char(s@[i as int]));
            }
            return None;
        }
        i += 1;
    }
    assert forall|at: int| 0 <= at < n && s@[at] == '@' implies exists|k: int|
        0 <= k < at && !is_local_char(#[trigger] s@[k]) by {
        assert(is_local_char(s@[at]));
        assert(!is_local_char('@'));
    }
    None
}

/// Checks the part of `s` behind index `at` against the domain rules.
fn check_domain(s: &Vec<char>, n: usize, at: usize) -> (ok: bool)
    requires
        n == s@.len(),
        at < n,
    ensures
        ok == is_valid_domain(s@.subrange(at + 1, n as int)),
{
    let ghost domain = s@.subrange(at + 1, n as int);
    let start: usize = at + 1;
    let len: usize = n - start;
    if len == 0 || len > MAX_DOMAIN_LENGTH {
        return false;
    }
    let first: char = s[start];
    let last: char = s[n - 1];
    assert(domain[0] == first);
    assert(domain[domain.len() - 1] == last);
    if !alphanumeric(first) || !alphanumeric(last) {
        return false;
    }
    let mut i: usize = 0;
    while i < len
        invariant
            n == s@.len(),
            start == at + 1,
            start + len == n,
            0 < len <= MAX_DOMAIN_LENGTH,
            i <= len,
            domain == s@.subrange(at + 1, n as int),
            forall|j: int| 0 <= j < i ==> is_domain_char(#[trigger] domain[j]),
            forall|j: int|
                0 < j < i && j < len - 1 && #[trigger] domain[j] == '.' ==> is_alphanumeric(
                    domain[j - 1],
                ) && is_alphanumeric(domain[j + 1]),
        decreases len - i,
    {
        let c: char = s[start + i];
        assert(domain[i as int] == c);
        if !domain_char(c) {
            return false;
        }
        if c == '.' && 0 < i && i < len - 1 {
            let before: char = s[start + i - 1];
            let after: char = s[start + i + 1];
            assert(domain[i - 1] == before);
            assert(domain[i + 1] == after);
            if !alphanumeric(before) || !alphanumeric(after) {
                return false;
            }
        }
        i += 1;
    }
    true
}

/// Whether `s` is a valid address.
pub fn validate_email(s: &str) -> (ok: bool)
    ensures
        ok == is_valid_email(s@),
{
    let chars = chars_of(s);
    let n: usize = chars.len();
    match find_at(&chars, n) {
        None => {
            assert forall|at: int| !splits_at(s@, at) by {
                if splits_at(s@, at) {
                    let k = choose|k: int| 0 <= k < at && !is_local_char(#[trigger] s@[k]);
                    assert(s@.subrange(0, at)[k] == s@[k]);
                }
            }
            false
        },
        Some(at) => {
            assert forall|other: int| splits_at(s@, other) implies other == at by {
                assert(!is_local_char('@'));
                if other < at {
                    assert(is_local_char(s@[other]));
                } else if other > at {
                    assert(s@.subrange(0, other)[at as int] == s@[at as int]);
                }
            }
            assert(is_valid_local(s@.subrange(0, at as int)) <==> 0 < at <= MAX_LOCAL_LENGTH) by {
                let local = s@.subrange(0, at as int);
                assert forall|i: int| 0 <= i < local.len() implies is_local_char(
                    #[trigger] local[i],
                ) by {
                    assert(local[i] == s@[i]);
                }
            }
            if at == 0 || at > MAX_LOCAL_LENGTH {
                return false;
            }
            let ok = check_domain(&chars, n, at);
            assert(ok == splits_at(s@, at as int));
            ok
        },
    }
}

impl SubscriberEmail {
    /// Every address that exists is valid.
    #[verifier::type_invariant]
    spec fn well_formed(self) -> bool {
        is_valid_email(self.address@)
    }

    /// Accepts `s` if it is a valid address, and refuses it with a message
    /// that names it otherwise.
    pub fn parse(s: String) -> (r: Result<SubscriberEmail, String>)
        ensures
            match r {
                Ok(email) => is_valid_email(s@) && email@ == s@,
                Err(message) => !is_valid_email(s@) && message@ == invalid_email_message(s@),
            },
    {
        if validate_email(s.as_str()) {
            Ok(SubscriberEmail { address: s })
        } else {
            Err(s.concat(" is not a valid subscriber email."))
        }
    }

    /// The address as text.
    pub fn as_str(&self) -> (s: &str)
        ensures
            s@ == self@,
            is_valid_email(s@),
    {
        proof {
            use_type_invariant(self);
        }
        self.address.as_str()
    }
}

} // verus!
