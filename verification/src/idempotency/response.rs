//! Saved responses: what a finished request answered, kept so that a retry
//! gets the same answer byte for byte.

use vstd::prelude::*;

verus! {

/// The smallest status code a response can carry.
pub const MIN_STATUS_CODE: u16 = 100;

/// The largest status code a response can carry.
pub const MAX_STATUS_CODE: u16 = 999;

/// One response header: its name and the bytes of its value.
pub struct HeaderPair {
    pub name: String,
    pub value: Vec<u8>,
}

/// A header as contracts see it.
pub struct HeaderContent {
    pub name: Seq<char>,
    pub value: Seq<u8>,
}

impl View for HeaderPair {
    type V = HeaderContent;

    open spec fn view(&self) -> HeaderContent {
        HeaderContent { name: self.name@, value: self.value@ }
    }
}

/// A response as contracts see it.
pub struct ResponseContent {
    pub status_code: u16,
    pub headers: Seq<HeaderContent>,
    pub body: Seq<u8>,
}

/// The headers of `headers` as contracts see them.
pub open spec fn header_contents(headers: Seq<HeaderPair>) -> Seq<HeaderContent> {
    Seq::new(headers.len(), |i: int| headers[i]@)
}

/// Whether `code` is a status code that a response can carry.
pub open spec fn is_status_code(code: int) -> bool {
    MIN_STATUS_CODE <= code <= MAX_STATUS_CODE
}

/// A response that can be saved and replayed.
pub struct SavedResponse {
    status_code: u16,
    headers: Vec<HeaderPair>,
    body: Vec<u8>,
}

impl View for SavedResponse {
    type V = ResponseContent;

    closed spec fn view(&self) -> ResponseContent {
        ResponseContent {
            status_code: self.status_code,
            headers: header_contents(self.headers@),
            body: self.body@,
        }
    }
}

/// A response in the form in which the table holds it: the status code as
/// a signed 16-bit number, the headers and the body as bytes.
pub struct ResponseRow {
    pub response_status_code: i16,
    pub response_headers: Vec<HeaderPair>,
    pub response_body: Vec<u8>,
}

/// Why a response could not be built.
#[derive(Debug, Clone, Copy, PartialEq, Eq, Structural)]
pub enum ResponseError {
    /// The status code is not within 100 to 999.
    InvalidStatusCode,
}

/// A copy of `bytes`.
pub fn copy_bytes(bytes: &Vec<u8>) -> (copy: Vec<u8>)
    ensures
        copy@ == bytes@,
{
    let mut copy: Vec<u8> = Vec::new();
    let mut i: usize = 0;
    while i < bytes.len()
        invariant
            i <= bytes.len(),
            copy@ == bytes@.subrange(0, i as int),
        decreases bytes.len() - i,
    {
        copy.push(bytes[i]);
        assert(copy@ =~= bytes@.subrange(0, i + 1));
        i += 1;
    }
    assert(bytes@.subrange(0, i as int) =~= bytes@);
    copy
}

/// A copy of `headers`, in the same order.
pub fn copy_headers(headers: &Vec<HeaderPair>) -> (copy: Vec<HeaderPair>)
    ensures
        header_contents(copy@) == header_contents(headers@),
{
    let mut copy: Vec<HeaderPair> = Vec::new();
    let mut i: usize = 0;
    while i < headers.len()
        invariant
            i <= headers.len(),
            copy@.len() == i,
            forall|j: int| 0 <= j < i ==> (#[trigger] copy@[j])@ == headers@[j]@,
        decreases headers.len() - i,
    {
        let pair = HeaderPair {
            name: headers[i].name.clone(),
            value: copy_bytes(&headers[i].value),
        };
        copy.push(pair);
        i += 1;
    }
    assert(header_contents(copy@) =~= header_contents(headers@));
    copy
}

impl SavedResponse {
    /// The status code of every response is within 100 to 999.
    #[verifier::type_invariant]
    spec fn well_formed(self) -> bool {
        is_status_code(self.status_code as int)
    }

    /// Builds a response. A status code outside 100 to 999 is refused.
    pub fn new(status_code: u16, headers: Vec<HeaderPair>, body: Vec<u8>) -> (r: Result<
        SavedResponse,
        ResponseError,
    >)
        ensures
            match r {
                Ok(response) => is_status_code(status_code as int) && response@ == (
                ResponseContent {
                    status_code,
                    headers: header_contents(headers@),
                    body: body@,
                }),
                Err(e) => e == ResponseError::InvalidStatusCode && !is_status_code(
                    status_code as int,
                ),
            },
    {
        if status_code < MIN_STATUS_CODE || status_code > MAX_STATUS_CODE {
            return Err(ResponseError::InvalidStatusCode);
        }
        Ok(SavedResponse { status_code, headers, body })
    }

    /// Builds a response whose status code is known to be in range.
    pub(crate) fn from_parts(status_code: u16, headers: Vec<HeaderPair>, body: Vec<u8>) -> (response:
        SavedResponse)
        requires
            is_status_code(status_code as int),
        ensures
            response@ == (ResponseContent {
                status_code,
                headers: header_contents(headers@),
                body: body@,
            }),
    {
        SavedResponse { status_code, headers, body }
    }

    /// The status code.
    pub fn status_code(&self) -> (code: u16)
        ensures
            code == self@.status_code,
            is_status_code(code as int),
    {
        proof {
            use_type_invariant(self);
        }
        self.status_code
    }

    /// The headers, in order.
    pub fn headers(&self) -> (headers: &Vec<HeaderPair>)
        ensures
            header_contents(headers@) == self@.headers,
    {
        &self.headers
    }

    /// The body.
    pub fn body(&self) -> (body: &Vec<u8>)
        ensures
            body@ == self@.body,
    {
        &self.body
    }

    /// A copy of the response, equal to it byte for byte.
    pub fn duplicate(&self) -> (copy: SavedResponse)
        ensures
            copy@ == self@,
    {
        proof {
            use_type_invariant(self);
        }
        SavedResponse {
            status_code: self.status_code,
            headers: copy_headers(&self.headers),
            body: copy_bytes(&self.body),
        }
    }

    /// The response in the form in which the table holds it.
    pub fn to_row(&self) -> (row: ResponseRow)
        ensures
            row.response_status_code == self@.status_code,
            header_contents(row.response_headers@) == self@.headers,
            row.response_body@ == self@.body,
    {
        proof {
            use_type_invariant(self);
        }
        ResponseRow {
            response_status_code: self.status_code as i16,
            response_headers: copy_headers(&self.headers),
            response_body: copy_bytes(&self.body),
        }
    }

    /// Rebuilds a response from a row of the table. A row whose status
    /// code is negative or outside 100 to 999 is refused.
    pub fn from_row(row: ResponseRow) -> (r: Result<SavedResponse, ResponseError>)
        ensures
            match r {
                Ok(response) => {
                    &&& is_status_code(row.response_status_code as int)
                    &&& response@.status_code == row.response_status_code
                    &&& response@.headers == header_contents(row.response_headers@)
                    &&& response@.body == row.response_body@
                },
                Err(e) => e == ResponseError::InvalidStatusCode && !is_status_code(
                    row.response_status_code as int,
                ),
            },
    {
        if row.response_status_code < 0 {
            return Err(ResponseError::InvalidStatusCode);
        }
        let code: u16 = row.response_status_code as u16;
        SavedResponse::new(code, row.response_headers, row.response_body)
    }
}

/// A response that was written to the table and read back is the response
/// that was written: same status code, same headers in the same order,
/// same body.
pub proof fn lemma_row_round_trip(response: SavedResponse, row: ResponseRow, back: SavedResponse)
    requires
        row.response_status_code == response@.status_code,
        header_contents(row.response_headers@) == response@.headers,
        row.response_body@ == response@.body,
        back@.status_code == row.response_status_code,
        back@.headers == header_contents(row.response_headers@),
        back@.body == row.response_body@,
    ensures
        back@ == response@,
{
}

} // verus!
