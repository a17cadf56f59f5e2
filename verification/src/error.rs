//! The unified failure type of the client, and the error unifier: the
//! component that turns a non-success response, once its body has been fully
//! drained, into a typed error.

use vstd::prelude::*;

verus! {

/// Largest number of raw body bytes kept inside a protocol error.
pub const MAX_RAW_BODY: usize = 512;

/// The universal failure type returned by every fallible operation of the
/// client.
#[derive(Debug)]
pub enum Error {
    /// The request could not be constructed; no I/O was attempted.
    RequestBuild { reason: String },
    /// The underlying transport failed (connection, timeout, ...).
    Transport { reason: String },
    /// The daemon answered with a non-success status and a parseable
    /// structured error payload.
    Server { status: u16, message: String, code: u64 },
    /// The daemon answered with a non-success status and a body that is not
    /// the structured error payload; the raw bytes are kept, truncated to
    /// `MAX_RAW_BODY`.
    Protocol { status: u16, body: Vec<u8> },
    /// A complete newline-terminated line could not be parsed as one JSON
    /// record; the offending line is kept.
    Decode { line: Vec<u8> },
}

/// Whether an HTTP status selects the success path (record decoding) rather
/// than the error path (drain, then classify): any 2xx status. Server and
/// protocol errors are non-2xx outcomes only.
pub open spec fn is_success(status: u16) -> bool {
    200 <= status <= 299
}

/// What `serde_json` makes of a byte sequence when read as the daemon's
/// structured error payload `{"Message": <string>, "Code": <number>}`:
/// `Some((message, code))` when the bytes parse as that shape, `None`
/// otherwise. The outcome depends on the bytes alone.
pub uninterp spec fn api_error_parse(body: Seq<u8>) -> Option<(Seq<char>, u64)>;

/// Relies on `serde_json::from_slice::<Value>` and the `Value` accessors
/// `get`, `as_str` and `as_u64`: recognising the daemon's error payload
/// `{"Message": <string>, "Code": <number>}` is a function of the bytes alone.
#[verifier::external_body]
fn parse_api_error(body: &Vec<u8>) -> (r: Option<(String, u64)>)
    ensures
        match r {
            Some(p) => api_error_parse(body@) == Some((p.0@, p.1)),
            None => api_error_parse(body@) is None,
        },
{
    let v: serde_json::Value = match serde_json::from_slice(body.as_slice()) {
        Ok(v) => v,
        Err(_) => return None,
    };
    let message = match v.get("Message").and_then(|m| m.as_str()) {
        Some(m) => m.to_string(),
        None => return None,
    };
    match v.get("Code").and_then(|c| c.as_u64()) {
        Some(code) => Some((message, code)),
        None => None,
    }
}

/// The raw bytes kept inside a protocol error: the whole body when small
/// enough, else its first `MAX_RAW_BODY` bytes.
pub open spec fn truncated(body: Seq<u8>) -> Seq<u8> {
    if body.len() <= MAX_RAW_BODY {
        body
    } else {
        body.take(MAX_RAW_BODY as int)
    }
}

/// What classifying a drained non-success response must produce: a server
/// error carrying the parsed message and code when the body is the structured
/// payload, else a protocol error carrying the status and the (truncated) raw
/// body.
pub open spec fn classified(status: u16, body: Seq<u8>, r: Error) -> bool {
    match api_error_parse(body) {
        Some(p) => r matches Error::Server { status: s, message, code }
            && s == status && message@ == p.0 && code == p.1,
        None => r matches Error::Protocol { status: s, body: raw }
            && s == status && raw@ == truncated(body),
    }
}

/// The error unifier: given a non-success status and the fully drained
/// response body, produce the typed error. Never called for success statuses.
pub fn classify(status: u16, body: Vec<u8>) -> (r: Error)
    requires
        !is_success(status),
    ensures
        classified(status, body@, r),
{
    let mut body = body;
    match parse_api_error(&body) {
        Some((message, code)) => Error::Server { status, message, code },
        None => {
            if body.len() > MAX_RAW_BODY {
                body.truncate(MAX_RAW_BODY);
            }
            Error::Protocol { status, body }
        }
    }
}

/// Accumulates the body of a non-success response. The whole body must pass
/// through `feed` before `finish` classifies it: an error is only ever built
/// from a fully drained body.
pub struct ErrorDrain {
    status: u16,
    body: Vec<u8>,
}

impl ErrorDrain {
    /// The non-success status the response carried.
    pub closed spec fn status_spec(&self) -> u16 {
        self.status
    }

    /// Every body byte drained so far, in arrival order.
    pub closed spec fn body_spec(&self) -> Seq<u8> {
        self.body@
    }

    /// A drain only ever exists for a non-success status.
    pub closed spec fn wf(&self) -> bool {
        !is_success(self.status)
    }

    pub fn new(status: u16) -> (r: Self)
        requires
            !is_success(status),
        ensures
            r.wf(),
            r.status_spec() == status,
            r.body_spec() == Seq::<u8>::empty(),
    {
        ErrorDrain { status, body: Vec::new() }
    }

    /// Drain one more chunk of the error body.
    pub fn feed(&mut self, chunk: &Vec<u8>)
        ensures
            final(self).wf() == old(self).wf(),
            final(self).status_spec() == old(self).status_spec(),
            final(self).body_spec() == old(self).body_spec() + chunk@,
    {
        self.body.extend_from_slice(chunk.as_slice());
    }

    /// The body has been drained to its end: classify it. Consuming the drain
    /// makes it impossible to classify the same response twice or to feed
    /// bytes after classification.
    pub fn finish(self) -> (r: Error)
        requires
            self.wf(),
        ensures
            classified(self.status_spec(), self.body_spec(), r),
    {
        classify(self.status, self.body)
    }
}

} // verus!
