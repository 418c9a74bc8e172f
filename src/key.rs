use vstd::prelude::*;

verus! {

/// The longest idempotency key that is accepted, counted in characters.
pub const MAX_KEY_LENGTH: usize = 50;

/// What a raw key must satisfy to be used as a storage key.
pub open spec fn valid_key(s: Seq<char>) -> bool {
    0 < s.len() <= MAX_KEY_LENGTH
}

/// Why a raw string was refused as an idempotency key.
#[derive(Debug, Clone, Copy, PartialEq, Eq, Structural)]
pub enum KeyError {
    /// The key holds no characters.
    Empty,
    /// The key holds more than `MAX_KEY_LENGTH` characters.
    TooLong,
}

/// A client-supplied token that identifies one logical operation.
///
/// It can only be built through `parse`, so every value holds a valid key.
#[derive(Debug, PartialEq, Eq, Hash)]
pub struct IdempotencyKey {
    value: String,
}

impl View for IdempotencyKey {
    type V = Seq<char>;

    closed spec fn view(&self) -> Seq<char> {
        self.value@
    }
}

impl IdempotencyKey {
    /// Every key holds a valid key's text.
    #[verifier::type_invariant]
    spec fn wf(&self) -> bool {
        valid_key(self.value@)
    }

    /// Validates `raw` and takes it as a key.
    pub fn parse(raw: String) -> (r: Result<IdempotencyKey, KeyError>)
        ensures
            raw@.len() == 0 <==> r == Err::<IdempotencyKey, KeyError>(KeyError::Empty),
            raw@.len() > MAX_KEY_LENGTH <==> r == Err::<IdempotencyKey, KeyError>(
                KeyError::TooLong,
            ),
            valid_key(raw@) <==> r is Ok,
            r matches Ok(k) ==> k@ == raw@,
    {
        let n: usize = raw.as_str().unicode_len();
        if n == 0 {
            Err(KeyError::Empty)
        } else if n > MAX_KEY_LENGTH {
            Err(KeyError::TooLong)
        } else {
            Ok(IdempotencyKey { value: raw })
        }
    }

    /// The key's text, which is always a valid key.
    pub fn as_str(&self) -> (r: &str)
        ensures
            r@ == self@,
            valid_key(r@),
    {
        proof {
            use_type_invariant(self);
        }
        self.value.as_str()
    }

    /// Gives the key's text back.
    pub fn into_string(self) -> (r: String)
        ensures
            r@ == self@,
    {
        self.value
    }

    /// A key with the same text as this one.
    pub fn duplicate(&self) -> (r: IdempotencyKey)
        ensures
            r@ == self@,
    {
        proof {
            use_type_invariant(self);
        }
        IdempotencyKey { value: self.value.clone() }
    }

    /// Compares two keys by their exact text.
    pub fn same_as(&self, other: &IdempotencyKey) -> (r: bool)
        ensures
            r == (self@ == other@),
    {
        self.value == other.value
    }
}

} // verus!
