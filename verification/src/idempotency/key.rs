//! Client-supplied idempotency keys.

use vstd::prelude::*;

use crate::text::chars_of;

verus! {

/// Keys must be shorter than this many characters.
pub const MAX_KEY_LENGTH: usize = 50;

/// Whether `c` may appear in a key: an ASCII letter, an ASCII digit, `-` or `_`.
pub open spec fn is_key_char(c: char) -> bool {
    ||| 'a' <= c <= 'z'
    ||| 'A' <= c <= 'Z'
    ||| '0' <= c <= '9'
    ||| c == '-'
    ||| c == '_'
}

/// Whether `s` is acceptable as an idempotency key: not empty, shorter than
/// `MAX_KEY_LENGTH` characters, and made of key characters only.
pub open spec fn is_valid_key(s: Seq<char>) -> bool {
    &&& 0 < s.len() < MAX_KEY_LENGTH
    &&& forall|i: int| 0 <= i < s.len() ==> is_key_char(#[trigger] s[i])
}

/// Why a string was refused as an idempotency key.
#[derive(Debug, Clone, Copy, PartialEq, Eq, Structural)]
pub enum KeyError {
    /// The string is empty.
    Empty,
    /// The string has `MAX_KEY_LENGTH` characters or more.
    TooLong,
    /// The string holds a character outside the safe set.
    InvalidCharacter,
}

/// The verdict on a candidate key: the first rule it breaks, if any.
/// Emptiness is checked first, then length, then the character set.
pub open spec fn key_verdict(s: Seq<char>) -> Option<KeyError> {
    if s.len() == 0 {
        Some(KeyError::Empty)
    } else if s.len() >= MAX_KEY_LENGTH {
        Some(KeyError::TooLong)
    } else if exists|i: int| 0 <= i < s.len() && !is_key_char(#[trigger] s[i]) {
        Some(KeyError::InvalidCharacter)
    } else {
        None
    }
}

/// A validated idempotency key.
pub struct IdempotencyKey {
    text: String,
}

impl View for IdempotencyKey {
    type V = Seq<char>;

    closed spec fn view(&self) -> Seq<char> {
        self.text@
    }
}

impl IdempotencyKey {
    /// Every key that exists is valid.
    #[verifier::type_invariant]
    spec fn well_formed(self) -> bool {
        is_valid_key(self.text@)
    }

    /// Validates `s` and wraps it. Nothing is trimmed or truncated: the key
    /// holds exactly the characters that were given.
    pub fn try_from(s: String) -> (r: Result<IdempotencyKey, KeyError>)
        ensures
            match r {
                Ok(key) => key_verdict(s@) is None && key@ == s@ && is_valid_key(key@),
                Err(e) => key_verdict(s@) == Some(e),
            },
    {
        let verdict = check_key(s.as_str());
        match verdict {
            Some(e) => Err(e),
            None => Ok(IdempotencyKey { text: s }),
        }
    }

    /// The key's characters.
    pub fn as_str(&self) -> (s: &str)
        ensures
            s@ == self@,
            is_valid_key(s@),
    {
        proof {
            use_type_invariant(self);
        }
        self.text.as_str()
    }

    /// A copy of the key.
    pub fn duplicate(&self) -> (k: IdempotencyKey)
        ensures
            k@ == self@,
    {
        proof {
            use_type_invariant(self);
        }
        IdempotencyKey { text: self.text.clone() }
    }
}

/// `key_verdict` accepts exactly the valid keys.
pub proof fn lemma_verdict_none_iff_valid(s: Seq<char>)
    ensures
        key_verdict(s) is None <==> is_valid_key(s),
{
}

/// Computes `key_verdict` for `s`.
pub fn check_key(s: &str) -> (verdict: Option<KeyError>)
    ensures
        verdict == key_verdict(s@),
{
    let chars = chars_of(s);
    let n: usize = chars.len();
    if n == 0 {
        return Some(KeyError::Empty);
    }
    if n >= MAX_KEY_LENGTH {
        return Some(KeyError::TooLong);
    }
    let mut i: usize = 0;
    while i < n
        invariant
            chars@ == s@,
            n == s@.len(),
            0 < n < MAX_KEY_LENGTH,
            i <= n,
            forall|j: int| 0 <= j < i ==> is_key_char(#[trigger] s@[j]),
        decreases n - i,
    {
        let c: char = chars[i];
        let ok = ('a' <= c && c <= 'z') || ('A' <= c && c <= 'Z') || ('0' <= c && c <= '9') || c
            == '-' || c == '_';
        if !ok {
            return Some(KeyError::InvalidCharacter);
        }
        i += 1;
    }
    None
}

} // verus!
