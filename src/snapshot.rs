use vstd::prelude::*;

verus! {

/// One response header as it was sent: its name and its raw value.
#[derive(Debug)]
pub struct HeaderPair {
    pub name: String,
    pub value: Vec<u8>,
}

impl View for HeaderPair {
    type V = (Seq<char>, Seq<u8>);

    open spec fn view(&self) -> (Seq<char>, Seq<u8>) {
        (self.name@, self.value@)
    }
}

/// The abstract content of a recorded response.
pub struct SnapshotView {
    pub status_code: u16,
    pub headers: Seq<(Seq<char>, Seq<u8>)>,
    pub body: Seq<u8>,
}

/// An HTTP-shaped response captured after the protected handler ran:
/// status code, headers in order (duplicates kept) and body bytes.
#[derive(Debug)]
pub struct ResponseSnapshot {
    pub status_code: u16,
    pub headers: Vec<HeaderPair>,
    pub body: Vec<u8>,
}

impl View for ResponseSnapshot {
    type V = SnapshotView;

    open spec fn view(&self) -> SnapshotView {
        SnapshotView {
            status_code: self.status_code,
            headers: self.headers@.map_values(|h: HeaderPair| h@),
            body: self.body@,
        }
    }
}

/// Status codes that an HTTP response can carry.
pub open spec fn valid_status_code(code: int) -> bool {
    100 <= code <= 999
}

/// A completed record whose stored columns cannot be read back as a response.
#[derive(Debug, Clone, Copy, PartialEq, Eq, Structural)]
pub enum ReplayMismatch {
    /// Some response columns are set and others are not.
    PartialColumns,
    /// The stored status code is not one an HTTP response can carry.
    InvalidStatusCode,
}

fn copy_bytes(b: &Vec<u8>) -> (r: Vec<u8>)
    ensures
        r@ == b@,
{
    let mut r: Vec<u8> = Vec::with_capacity(b.len());
    let mut i: usize = 0;
    while i < b.len()
        invariant
            i <= b@.len(),
            r@ == b@.subrange(0, i as int),
        decreases b@.len() - i,
    {
        r.push(b[i]);
        i = i + 1;
        proof {
            assert(r@ =~= b@.subrange(0, i as int));
        }
    }
    proof {
        assert(r@ =~= b@);
    }
    r
}

impl HeaderPair {
    /// A header that is equal to this one in name and value.
    pub fn duplicate(&self) -> (r: HeaderPair)
        ensures
            r@ == self@,
    {
        HeaderPair { name: self.name.clone(), value: copy_bytes(&self.value) }
    }
}

impl ResponseSnapshot {
    pub fn new(status_code: u16, headers: Vec<HeaderPair>, body: Vec<u8>) -> (r: ResponseSnapshot)
        ensures
            r.status_code == status_code,
            r.headers@ == headers@,
            r.body@ == body@,
    {
        ResponseSnapshot { status_code, headers, body }
    }

    /// A snapshot that is byte for byte equal to this one.
    pub fn duplicate(&self) -> (r: ResponseSnapshot)
        ensures
            r@ == self@,
    {
        let mut headers: Vec<HeaderPair> = Vec::with_capacity(self.headers.len());
        let mut i: usize = 0;
        while i < self.headers.len()
            invariant
                i <= self.headers@.len(),
                headers@.len() == i,
                forall|j: int| 0 <= j < i ==> #[trigger] headers@[j]@ == self.headers@[j]@,
            decreases self.headers@.len() - i,
        {
            headers.push(self.headers[i].duplicate());
            i = i + 1;
        }
        let r = ResponseSnapshot {
            status_code: self.status_code,
            headers,
            body: copy_bytes(&self.body),
        };
        proof {
            assert(r@.headers =~= self@.headers);
        }
        r
    }

    /// Reads back the nullable response columns of a stored record.
    ///
    /// All three absent means the record is still being processed (`None`);
    /// all three present, with a valid status code, give the recorded
    /// response; anything else is a record that cannot be replayed.
    pub fn from_columns(
        status_code: Option<i16>,
        headers: Option<Vec<HeaderPair>>,
        body: Option<Vec<u8>>,
    ) -> (r: Result<Option<ResponseSnapshot>, ReplayMismatch>)
        ensures
            (status_code is None && headers is None && body is None) <==> r == Ok::<
                Option<ResponseSnapshot>,
                ReplayMismatch,
            >(None),
            (status_code is Some && headers is Some && body is Some && valid_status_code(
                status_code->0 as int,
            )) <==> r matches Ok(Some(_)),
            r matches Ok(Some(s)) ==> s.status_code as int == status_code->0 as int
                && s.headers@ == headers->0@ && s.body@ == body->0@,
            (status_code is Some && headers is Some && body is Some && !valid_status_code(
                status_code->0 as int,
            )) <==> r == Err::<Option<ResponseSnapshot>, ReplayMismatch>(
                ReplayMismatch::InvalidStatusCode,
            ),
    {
        match (status_code, headers, body) {
            (None, None, None) => Ok(None),
            (Some(code), Some(headers), Some(body)) => {
                if 100 <= code && code <= 999 {
                    Ok(Some(ResponseSnapshot { status_code: code as u16, headers, body }))
                } else {
                    Err(ReplayMismatch::InvalidStatusCode)
                }
            },
            _ => Err(ReplayMismatch::PartialColumns),
        }
    }
}

} // verus!
