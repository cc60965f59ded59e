use vstd::prelude::*;
use vstd::string::*;

verus! {

/// Longest accepted idempotency key, in characters.
pub const MAX_KEY_LEN: usize = 50;

pub open spec fn is_key_char(c: char) -> bool {
    ('a' <= c && c <= 'z') || ('A' <= c && c <= 'Z') || ('0' <= c && c <= '9') || c == '-' || c == '_'
}

/// Why a client-supplied idempotency key was rejected.
#[derive(Clone, Copy, Debug, PartialEq, Eq, Structural)]
pub enum KeyError {
    Empty,
    TooLong,
    ForbiddenCharacter,
}

pub open spec fn key_error(s: Seq<char>) -> Option<KeyError> {
    if s.len() == 0 {
        Some(KeyError::Empty)
    } else if s.len() > MAX_KEY_LEN {
        Some(KeyError::TooLong)
    } else if exists|i: int| 0 <= i < s.len() && !is_key_char(#[trigger] s[i]) {
        Some(KeyError::ForbiddenCharacter)
    } else {
        None
    }
}

impl KeyError {
    /// The message shown to the client.
    pub fn message(&self) -> (r: &'static str)
        ensures
            r@ == match self {
                KeyError::Empty => "The idempotency key cannot be empty"@,
                KeyError::TooLong => "The idempotency key must be at most 50 characters long"@,
                KeyError::ForbiddenCharacter => "The idempotency key may only hold letters, digits, '-' and '_'"@,
            },
    {
        match self {
            KeyError::Empty => "The idempotency key cannot be empty",
            KeyError::TooLong => "The idempotency key must be at most 50 characters long",
            KeyError::ForbiddenCharacter => "The idempotency key may only hold letters, digits, '-' and '_'",
        }
    }
}

/// A client-supplied token that identifies one logical submission, scoped
/// to the owner that sent it.
#[derive(Clone, Debug)]
pub struct IdempotencyKey(String);

impl View for IdempotencyKey {
    type V = Seq<char>;

    closed spec fn view(&self) -> Seq<char> {
        self.0@
    }
}

impl IdempotencyKey {
    pub open spec fn wf(&self) -> bool {
        key_error(self@) is None
    }

    pub fn parse(s: String) -> (r: Result<IdempotencyKey, KeyError>)
        ensures
            match r {
                Ok(k) => key_error(s@) is None && k@ == s@ && k.wf(),
                Err(e) => key_error(s@) == Some(e),
            },
    {
        let n = s.as_str().unicode_len();
        if n == 0 {
            return Err(KeyError::Empty);
        }
        if n > MAX_KEY_LEN {
            return Err(KeyError::TooLong);
        }
        let mut i: usize = 0;
        while i < n
            invariant
                n == s@.len(),
                0 < n <= MAX_KEY_LEN,
                i <= n,
                forall|j: int| 0 <= j < i ==> is_key_char(#[trigger] s@[j]),
            decreases n - i,
        {
            let c = s.as_str().get_char(i);
            if !(('a' <= c && c <= 'z') || ('A' <= c && c <= 'Z') || ('0' <= c && c <= '9') || c == '-' || c == '_') {
                assert(!is_key_char(s@[i as int]));
                assert(exists|j: int| 0 <= j < s@.len() && !is_key_char(#[trigger] s@[j]));
                return Err(KeyError::ForbiddenCharacter);
            }
            i = i + 1;
        }
        Ok(IdempotencyKey(s))
    }

    pub fn as_str(&self) -> (r: &str)
        ensures
            r@ == self@,
    {
        self.0.as_str()
    }

    pub fn copied(&self) -> (r: IdempotencyKey)
        ensures
            r@ == self@,
    {
        IdempotencyKey(self.0.clone())
    }
}

/// One response header.
#[derive(Clone, Debug, PartialEq, Eq)]
pub struct HeaderPair {
    pub name: String,
    pub value: String,
}

impl View for HeaderPair {
    type V = (Seq<char>, Seq<char>);

    open spec fn view(&self) -> (Seq<char>, Seq<char>) {
        (self.name@, self.value@)
    }
}

pub struct ResponseView {
    pub status_code: u16,
    pub headers: Seq<(Seq<char>, Seq<char>)>,
    pub body: Seq<u8>,
}

/// A response as first sent, replayed byte for byte on a repeated key.
#[derive(Clone, Debug, PartialEq, Eq)]
pub struct SavedResponse {
    pub status_code: u16,
    pub headers: Vec<HeaderPair>,
    pub body: Vec<u8>,
}

impl View for SavedResponse {
    type V = ResponseView;

    open spec fn view(&self) -> ResponseView {
        ResponseView {
            status_code: self.status_code,
            headers: self.headers@.map_values(|h: HeaderPair| h@),
            body: self.body@,
        }
    }
}

pub open spec fn see_other_view(location: Seq<char>) -> ResponseView {
    ResponseView {
        status_code: 303,
        headers: seq![("location"@, location)],
        body: Seq::empty(),
    }
}

impl SavedResponse {
    pub fn copied(&self) -> (r: SavedResponse)
        ensures
            r@ == self@,
    {
        let mut headers: Vec<HeaderPair> = Vec::new();
        let mut i: usize = 0;
        while i < self.headers.len()
            invariant
                i <= self.headers@.len(),
                headers@.len() == i,
                forall|j: int| 0 <= j < i ==> #[trigger] headers@[j]@ == self.headers@[j]@,
            decreases self.headers@.len() - i,
        {
            let h = &self.headers[i];
            headers.push(HeaderPair { name: h.name.clone(), value: h.value.clone() });
            i = i + 1;
        }
        let body = self.body.clone();
        assert(body@ =~= self.body@);
        let r = SavedResponse { status_code: self.status_code, headers, body };
        assert(r@.headers =~= self@.headers);
        r
    }
}

/// A redirect to `location` with an empty body.
pub fn see_other(location: &str) -> (r: SavedResponse)
    ensures
        r@ == see_other_view(location@),
{
    let mut headers: Vec<HeaderPair> = Vec::new();
    headers.push(HeaderPair { name: String::from_str("location"), value: String::from_str(location) });
    let r = SavedResponse { status_code: 303, headers, body: Vec::new() };
    assert(r@.headers =~= seq![("location"@, location@)]);
    assert(r@.body =~= Seq::<u8>::empty());
    r
}

} // verus!
